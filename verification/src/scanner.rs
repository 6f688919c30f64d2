use vstd::prelude::*;

verus! {

/// A buffer of input tokens, consumed from the back.  The unverified shell
/// reads lines, splits them into tokens and refills the buffer; parsing a
/// token into a value also stays with the shell.
pub struct Scanner {
    buffer: Vec<String>,
}

impl Scanner {
    /// The buffered tokens, next-to-serve last.
    pub closed spec fn tokens(self) -> Seq<String> {
        self.buffer@
    }

    /// An empty buffer.
    pub fn new() -> (r: Scanner)
        ensures
            r.tokens() == Seq::<String>::empty(),
    {
        Scanner { buffer: Vec::new() }
    }

    /// Serves the next token, or nothing if the buffer is dry.
    pub fn pop_token(&mut self) -> (r: Option<String>)
        ensures
            match r {
                Some(t) => old(self).tokens().len() > 0 && t == old(self).tokens().last()
                    && final(self).tokens() == old(self).tokens().drop_last(),
                None => old(self).tokens().len() == 0 && final(self).tokens() == old(
                    self,
                ).tokens(),
            },
    {
        self.buffer.pop()
    }

    /// Replaces the buffer with a fresh batch of tokens.
    pub fn refill(&mut self, tokens: Vec<String>)
        ensures
            final(self).tokens() == tokens@,
    {
        self.buffer = tokens;
    }
}

impl Default for Scanner {
    /// An empty buffer.
    fn default() -> (r: Scanner)
        ensures
            r.tokens() == Seq::<String>::empty(),
    {
        Scanner { buffer: Vec::new() }
    }
}

} // verus!
