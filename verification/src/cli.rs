use vstd::prelude::*;

use crate::bytes::bytes_eq;

verus! {

/// The run's arguments, as plain values.  The unverified shell owns the
/// actual argument parsing and hands this structure over; paths travel as
/// strings.
pub struct Args {
    /// The binary to bundle, or every binary of the package if absent.
    pub bin: Option<String>,
    /// The package to bundle, or the root package if absent.
    pub package: Option<String>,
    /// The manifest to query, or the working directory's if absent.
    pub manifest_path: Option<String>,
    /// Library name and source path pairs to inline as nested namespaces.
    pub libs: Vec<(String, String)>,
    /// The directory the bundled files are written to.
    pub out_dir: String,
}

/// A key-value argument could not be split: it holds no separator.
#[derive(Clone, Copy, PartialEq, Eq, Structural, Debug)]
pub struct KeyValError;

/// The position of the first `=` in `s`, or `-1` if none.
pub open spec fn first_eq(s: Seq<char>) -> int
    decreases s.len(),
{
    if s.len() == 0 {
        -1
    } else if s[0] == '=' {
        0
    } else {
        let k = first_eq(s.drop_first());
        if k < 0 {
            -1
        } else {
            k + 1
        }
    }
}

/// `first_eq` is the unique position with no separator before it.
pub proof fn lemma_first_eq_char(s: Seq<char>, j: int)
    requires
        0 <= j <= s.len(),
        forall|k: int| 0 <= k < j ==> s[k] != '=',
        j < s.len() ==> s[j] == '=',
    ensures
        first_eq(s) == if j < s.len() {
            j
        } else {
            -1
        },
    decreases j,
{
    if s.len() == 0 {
    } else if s[0] == '=' {
        assert(j == 0);
    } else {
        assert(j >= 1);
        lemma_first_eq_char(s.drop_first(), j - 1);
    }
}

/// Splits a `KEY=value` argument at its first separator; an argument with
/// no separator is rejected, never guessed at.
pub fn parse_key_val(s: &str) -> (r: Result<(String, String), KeyValError>)
    ensures
        match r {
            Ok(kv) => 0 <= first_eq(s@) < s@.len() && kv.0@ == s@.subrange(0, first_eq(s@))
                && kv.1@ == s@.subrange(first_eq(s@) + 1, s@.len() as int),
            Err(_) => first_eq(s@) == -1,
        },
{
    let n = s.unicode_len();
    let mut i: usize = 0;
    while i < n
        invariant
            i <= n,
            n == s@.len(),
            forall|k: int| 0 <= k < i ==> s@[k] != '=',
        decreases n - i,
    {
        if s.get_char(i) == '=' {
            proof {
                lemma_first_eq_char(s@, i as int);
            }
            let key = s.substring_char(0, i).to_owned();
            let value = s.substring_char(i + 1, n).to_owned();
            return Ok((key, value));
        }
        i = i + 1;
    }
    proof {
        lemma_first_eq_char(s@, s@.len() as int);
    }
    Err(KeyValError)
}

/// Whether two entries of the name list are the same byte string.
pub open spec fn has_duplicate(names: Seq<Vec<u8>>) -> bool {
    exists|i: int, j: int| 0 <= i < j < names.len() && names[i]@ == names[j]@
}

/// Decides whether any library name occurs twice.  Duplicate names would
/// collide once each library becomes a namespace block.
pub fn has_duplicate_names(names: &Vec<Vec<u8>>) -> (r: bool)
    ensures
        r == has_duplicate(names@),
{
    let mut i: usize = 0;
    while i < names.len()
        invariant
            i <= names@.len(),
            forall|a: int, b: int| 0 <= a < b < i ==> names@[a]@ != names@[b]@,
        decreases names@.len() - i,
    {
        let mut j: usize = 0;
        while j < i
            invariant
                j <= i < names@.len(),
                forall|a: int, b: int| 0 <= a < b < i ==> names@[a]@ != names@[b]@,
                forall|b: int| 0 <= b < j ==> names@[b]@ != names@[i as int]@,
            decreases i - j,
        {
            if bytes_eq(&names[j], &names[i]) {
                assert(names@[j as int]@ == names@[i as int]@);
                assert(has_duplicate(names@));
                return true;
            }
            j = j + 1;
        }
        i = i + 1;
    }
    false
}

/// What package selection needs of one build target: its name and whether
/// it is a binary target.
pub struct TargetInfo {
    pub name: Vec<u8>,
    pub is_bin: bool,
}

/// The index of the first name equal to `want`, or `-1`.
pub open spec fn first_name_index(names: Seq<Vec<u8>>, want: Seq<u8>) -> int
    decreases names.len(),
{
    if names.len() == 0 {
        -1
    } else if names[0]@ == want {
        0
    } else {
        let k = first_name_index(names.drop_first(), want);
        if k < 0 {
            -1
        } else {
            k + 1
        }
    }
}

/// `first_name_index` is the unique position with no equal name before it.
pub proof fn lemma_first_name_index_char(names: Seq<Vec<u8>>, want: Seq<u8>, j: int)
    requires
        0 <= j <= names.len(),
        forall|k: int| 0 <= k < j ==> (#[trigger] names[k])@ != want,
        j < names.len() ==> names[j]@ == want,
    ensures
        first_name_index(names, want) == if j < names.len() {
            j
        } else {
            -1
        },
    decreases j,
{
    if names.len() == 0 {
    } else if names[0]@ == want {
        assert(j == 0);
    } else {
        assert(j >= 1);
        lemma_first_name_index_char(names.drop_first(), want, j - 1);
    }
}

/// Finds the requested package among the metadata's package names: the
/// first one so named, as the metadata query reports them.
pub fn find_package(names: &Vec<Vec<u8>>, want: &Vec<u8>) -> (r: Option<usize>)
    ensures
        match r {
            Some(i) => i < names@.len() && first_name_index(names@, want@) == i as int,
            None => first_name_index(names@, want@) == -1,
        },
{
    let mut i: usize = 0;
    while i < names.len()
        invariant
            i <= names@.len(),
            forall|k: int| 0 <= k < i ==> (#[trigger] names@[k])@ != want@,
        decreases names@.len() - i,
    {
        if bytes_eq(&names[i], want) {
            proof {
                lemma_first_name_index_char(names@, want@, i as int);
            }
            return Some(i);
        }
        i = i + 1;
    }
    proof {
        lemma_first_name_index_char(names@, want@, names@.len() as int);
    }
    None
}

/// The indexes of the binary targets among the first `n`, in order.
pub open spec fn bin_indexes_upto(targets: Seq<TargetInfo>, n: int) -> Seq<int>
    decreases n,
{
    if n <= 0 {
        Seq::empty()
    } else {
        let prev = bin_indexes_upto(targets, n - 1);
        if targets[n - 1].is_bin {
            prev.push(n - 1)
        } else {
            prev
        }
    }
}

/// The indexes of all binary targets, in order.
pub open spec fn bin_indexes(targets: Seq<TargetInfo>) -> Seq<int> {
    bin_indexes_upto(targets, targets.len() as int)
}

/// Selects the package's binary targets, in the order the metadata lists
/// them.
pub fn bin_targets(targets: &Vec<TargetInfo>) -> (out: Vec<usize>)
    ensures
        out@.map_values(|v: usize| v as int) == bin_indexes(targets@),
{
    let mut out: Vec<usize> = Vec::new();
    let mut i: usize = 0;
    while i < targets.len()
        invariant
            i <= targets@.len(),
            out@.map_values(|v: usize| v as int) == bin_indexes_upto(targets@, i as int),
        decreases targets@.len() - i,
    {
        if targets[i].is_bin {
            let ghost pre = out@;
            out.push(i);
            proof {
                assert(out@.map_values(|v: usize| v as int) =~= pre.map_values(
                    |v: usize| v as int,
                ).push(i as int));
            }
        }
        i = i + 1;
    }
    out
}

/// Whether some binary target among the first `j` bears the wanted name.
pub open spec fn bin_named_upto(targets: Seq<TargetInfo>, want: Seq<u8>, j: int) -> bool {
    exists|k: int| 0 <= k < j && (#[trigger] targets[k]).is_bin && targets[k].name@ == want
}

/// Finds the first binary target bearing the requested name, if any.
pub fn find_bin(targets: &Vec<TargetInfo>, want: &Vec<u8>) -> (r: Option<usize>)
    ensures
        match r {
            Some(i) => i < targets@.len() && targets@[i as int].is_bin && targets@[
                i as int
            ].name@ == want@ && !bin_named_upto(targets@, want@, i as int),
            None => !bin_named_upto(targets@, want@, targets@.len() as int),
        },
{
    let mut i: usize = 0;
    while i < targets.len()
        invariant
            i <= targets@.len(),
            !bin_named_upto(targets@, want@, i as int),
        decreases targets@.len() - i,
    {
        if targets[i].is_bin && bytes_eq(&targets[i].name, want) {
            return Some(i);
        }
        proof {
            assert(!bin_named_upto(targets@, want@, i as int + 1));
        }
        i = i + 1;
    }
    None
}

} // verus!
