//! Derives an entry's type label from the final component of its path.
use vstd::prelude::*;
use vstd::utf8::{decode_utf8, valid_utf8};
use crate::report::FileInfo;

verus! {

/// The byte `.`.
pub const DOT: u8 = 0x2e;

/// The label of an entry whose name has no readable suffix.
pub open spec fn unknown_label() -> Seq<char> {
    seq!['u', 'n', 'k', 'n', 'o', 'w', 'n']
}

/// `i` is the position of the last `.` in `name`.
pub open spec fn is_last_dot(name: Seq<u8>, i: int) -> bool {
    &&& 0 <= i < name.len()
    &&& name[i] == DOT
    &&& forall|j: int| i < j < name.len() ==> name[j] != DOT
}

/// The bytes after the last `.` of a final path component. There are none when the
/// name holds no `.`, when nothing precedes its last `.` (a hidden name such as
/// `.bashrc`, or `.`), or when the name is `..`.
pub open spec fn suffix_of(name: Seq<u8>) -> Option<Seq<u8>> {
    if name == seq![DOT, DOT] {
        None
    } else if exists|i: int| is_last_dot(name, i) {
        let i = choose|i: int| is_last_dot(name, i);
        if i == 0 {
            None
        } else {
            Some(name.subrange(i + 1, name.len() as int))
        }
    } else {
        None
    }
}

/// The label for a suffix after decoding: its text, or `unknown` when there is no
/// suffix or it is not valid UTF-8.
pub open spec fn label_of_decoded(decoded: Option<Seq<char>>) -> Seq<char> {
    match decoded {
        Some(t) => t,
        None => unknown_label(),
    }
}

/// The type label of an entry whose final path component is `name`.
pub open spec fn file_type_of(name: Seq<u8>) -> Seq<char> {
    match suffix_of(name) {
        Some(s) => if valid_utf8(s) {
            decode_utf8(s)
        } else {
            unknown_label()
        },
        None => unknown_label(),
    }
}

/// Finds the suffix of a final path component (see `suffix_of`).
pub fn extension(name: &[u8]) -> (r: Option<Vec<u8>>)
    ensures
        r is Some <==> suffix_of(name@) is Some,
        r is Some ==> r->0@ == suffix_of(name@)->0,
{
    let n = name.len();
    if n == 2 && name[0] == DOT && name[1] == DOT {
        assert(name@ == seq![DOT, DOT]);
        return None;
    }
    assert(name@ != seq![DOT, DOT]) by {
        if name@ == seq![DOT, DOT] {
            assert(name@[0] == DOT && name@[1] == DOT);
        }
    }
    let mut i: usize = n;
    while i > 0
        invariant
            name@ != seq![DOT, DOT],
            i <= n == name@.len(),
            forall|j: int| i <= j < n ==> name@[j] != DOT,
        decreases i,
    {
        if name[i - 1] == DOT {
            let k: usize = i - 1;
            assert(is_last_dot(name@, k as int));
            assert forall|m: int| is_last_dot(name@, m) implies m == k by {
                if m < k {
                    assert(name@[k as int] == DOT);
                } else if m > k {
                    assert(name@[m] != DOT);
                }
            }
            if k == 0 {
                return None;
            }
            return Some(copy_from(name, i));
        }
        i = i - 1;
    }
    assert(!exists|m: int| is_last_dot(name@, m));
    None
}

/// The bytes of `name` from position `start` on.
fn copy_from(name: &[u8], start: usize) -> (r: Vec<u8>)
    requires
        start <= name@.len(),
    ensures
        r@ == name@.subrange(start as int, name@.len() as int),
{
    let n = name.len();
    let mut out: Vec<u8> = Vec::new();
    let mut p: usize = start;
    while p < n
        invariant
            start <= p <= n == name@.len(),
            out@ == name@.subrange(start as int, p as int),
        decreases n - p,
    {
        out.push(name[p]);
        p = p + 1;
        assert(out@ == name@.subrange(start as int, p as int));
    }
    out
}

/// Relies on `String::from_utf8`: it succeeds exactly when the bytes are valid UTF-8,
/// and the string then holds the characters that the bytes encode.
#[verifier::external_body]
fn decode_text(bytes: Vec<u8>) -> (r: Option<String>)
    ensures
        r is Some <==> valid_utf8(bytes@),
        r is Some ==> r->0@ == decode_utf8(bytes@),
{
    String::from_utf8(bytes).ok()
}

/// The `unknown` label as a string.
pub fn unknown() -> (r: String)
    ensures
        r@ == unknown_label(),
{
    proof {
        reveal_strlit("unknown");
    }
    "unknown".to_owned()
}

/// The label for a decoded suffix: the text itself, or `unknown` when there is none.
pub fn type_label(decoded: Option<String>) -> (r: String)
    ensures
        r@ == label_of_decoded(
            match decoded {
                Some(t) => Some(t@),
                None => None,
            },
        ),
{
    match decoded {
        Some(t) => t,
        None => unknown(),
    }
}

/// The type label of an entry whose final path component is `name`: the text after
/// its last `.`, or `unknown` when there is no such suffix or it is not valid UTF-8.
pub fn get_file_type(name: &[u8]) -> (r: String)
    ensures
        r@ == file_type_of(name@),
{
    match extension(name) {
        Some(s) => type_label(decode_text(s)),
        None => unknown(),
    }
}

/// The fact for one entry from what its own metadata gave, as a size and an owner;
/// an entry whose metadata could not be read gives no fact. `name` is the final
/// component of `path`.
pub fn classify(path: String, name: &[u8], metadata: Option<(u64, u32)>) -> (r: Option<FileInfo>)
    ensures
        r is Some <==> metadata is Some,
        r is Some ==> ({
            let f = r->0;
            &&& f.path@ == path@
            &&& metadata == Some((f.size, f.owner))
            &&& f.file_type@ == file_type_of(name@)
        }),
{
    match metadata {
        Some((size, owner)) => Some(FileInfo { path, size, file_type: get_file_type(name), owner }),
        None => None,
    }
}

} // verus!
