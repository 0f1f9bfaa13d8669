//! Demangling of symbol names, and the display form of a demangled name.

use vstd::prelude::*;
use crate::text::{chars_of, find_last, last_index_of};

verus! {

/// What `rustc_demangle::try_demangle` makes of `symbol`, rendered with
/// `Display`: `None` where the text is not a mangled symbol.
pub uninterp spec fn demangled_form(symbol: Seq<char>) -> Option<Seq<char>>;

/// Relies on `rustc_demangle::try_demangle` and the `Display` impl of its
/// result: the outcome depends on the text of `symbol` alone.
#[verifier::external_body]
fn try_demangle(symbol: &str) -> (r: Option<String>)
    ensures
        match r {
            Some(name) => demangled_form(symbol@) == Some(name@),
            None => demangled_form(symbol@) is None,
        },
{
    rustc_demangle::try_demangle(symbol).ok().map(|d| format!("{}", d))
}

/// Demangles `symbol`, or says that it is not a mangled symbol.
pub fn demangle(symbol: &str) -> (r: Option<String>)
    ensures
        match r {
            Some(name) => demangled_form(symbol@) == Some(name@),
            None => demangled_form(symbol@) is None,
        },
{
    try_demangle(symbol)
}

/// The display form of a demangled name: the text before the `::` that
/// opens its last segment (the hash). A name whose last `:` stands first,
/// or that has none, is shown whole.
pub open spec fn display_name_of(name: Seq<char>) -> Seq<char> {
    let p = last_index_of(name, ':');
    if p >= 1 {
        name.take(p - 1)
    } else {
        name
    }
}

/// The display form of the demangled name `name`.
pub fn display_name(name: &str) -> (r: String)
    ensures
        r@ == display_name_of(name@),
{
    let cs = chars_of(name);
    match find_last(&cs, ':') {
        Some(p) => {
            if p >= 1 {
                String::from_str(name.substring_char(0, p - 1))
            } else {
                String::from_str(name)
            }
        },
        None => String::from_str(name),
    }
}

/// Whether `s` is a run of ASCII hexadecimal digits.
pub open spec fn is_hex_digits(s: Seq<char>) -> bool {
    forall|i: int|
        0 <= i < s.len() ==> {
            let c = #[trigger] s[i];
            ('0' <= c && c <= '9') || ('a' <= c && c <= 'f') || ('A' <= c && c <= 'F')
        }
}

proof fn lemma_last_index_absent(s: Seq<char>, c: char)
    requires
        forall|i: int| 0 <= i < s.len() ==> s[i] != c,
    ensures
        last_index_of(s, c) == -1,
    decreases s.len(),
{
    if s.len() > 0 {
        assert(s.last() == s[s.len() - 1]);
        lemma_last_index_absent(s.drop_last(), c);
    }
}

/// The display form strips the hash: a name rendered as a path, `::h` and a
/// run of hex digits is shown as the path alone.
pub proof fn lemma_hash_stripped(path: Seq<char>, hash: Seq<char>)
    requires
        is_hex_digits(hash),
    ensures
        display_name_of(path + seq![':', ':', 'h'] + hash) == path,
{
    let tail = seq!['h'] + hash;
    let whole = path + seq![':', ':', 'h'] + hash;
    assert forall|i: int| 0 <= i < tail.len() implies tail[i] != ':' by {
        if i > 0 {
            assert(tail[i] == hash[i - 1]);
        }
    }
    lemma_last_index_absent(tail, ':');
    lemma_last_index_split(path + seq![':', ':'], tail, ':');
    assert(whole =~= (path + seq![':', ':']) + tail);
    assert((path + seq![':', ':']).last() == ':');
    assert(whole.take(path.len() as int) =~= path);
}

proof fn lemma_last_index_split(a: Seq<char>, b: Seq<char>, c: char)
    requires
        last_index_of(b, c) == -1,
        a.len() > 0,
        a.last() == c,
    ensures
        last_index_of(a + b, c) == a.len() - 1,
    decreases b.len(),
{
    if b.len() == 0 {
        assert(a + b =~= a);
    } else {
        assert((a + b).drop_last() =~= a + b.drop_last());
        assert((a + b).last() == b.last());
        lemma_last_index_split(a, b.drop_last(), c);
    }
}

} // verus!
