use vstd::prelude::*;
use vstd::string::*;

verus! {

/// Whether two strings hold the same characters.
pub fn str_eq(a: &str, b: &str) -> (result: bool)
    ensures
        result == (a@ == b@),
{
    let len = a.unicode_len();
    if len != b.unicode_len() {
        return false;
    }
    let mut i: usize = 0;
    while i < len
        invariant
            len == a@.len(),
            len == b@.len(),
            i <= len,
            forall|j: int| 0 <= j < i ==> a@[j] == b@[j],
        decreases len - i,
    {
        if a.get_char(i) != b.get_char(i) {
            return false;
        }
        i = i + 1;
    }
    assert(a@ =~= b@);
    true
}

/// The characters of a string.
pub fn chars_of(s: &str) -> (result: Vec<char>)
    ensures
        result@ == s@,
{
    let len = s.unicode_len();
    let mut result: Vec<char> = Vec::new();
    let mut i: usize = 0;
    while i < len
        invariant
            len == s@.len(),
            i <= len,
            result@ == s@.subrange(0, i as int),
        decreases len - i,
    {
        result.push(s.get_char(i));
        i = i + 1;
        assert(result@ =~= s@.subrange(0, i as int));
    }
    assert(s@.subrange(0, len as int) =~= s@);
    result
}

/// The first position at or after `start` where `sep` occurs in `text`.
pub open spec fn find_from(text: Seq<char>, sep: Seq<char>, start: int) -> Option<int>
    decreases text.len() + 1 - start,
{
    if start < 0 || start + sep.len() > text.len() {
        None
    } else if text.subrange(start, start + sep.len()) == sep {
        Some(start)
    } else {
        find_from(text, sep, start + 1)
    }
}

/// The pieces of `text` from `start` on between the occurrences of `sep`, as `str::split` gives
/// them.
pub open spec fn split_from(text: Seq<char>, sep: Seq<char>, start: int) -> Seq<Seq<char>>
    decreases text.len() + 1 - start,
{
    if sep.len() == 0 || start < 0 || start > text.len() {
        seq![]
    } else {
        match find_from(text, sep, start) {
            None => seq![text.subrange(start, text.len() as int)],
            Some(k) => if k >= start && k + sep.len() <= text.len() {
                seq![text.subrange(start, k)] + split_from(text, sep, k + sep.len())
            } else {
                seq![]
            },
        }
    }
}

pub open spec fn split(text: Seq<char>, sep: Seq<char>) -> Seq<Seq<char>> {
    split_from(text, sep, 0)
}

/// Whether `sep` occurs in `text` at position `k`.
fn occurs_at(text: &Vec<char>, sep: &Vec<char>, k: usize) -> (result: bool)
    requires
        k + sep@.len() <= text@.len(),
    ensures
        result == (text@.subrange(k as int, k + sep@.len()) == sep@),
{
    let mut j: usize = 0;
    while j < sep.len()
        invariant
            k + sep@.len() <= text@.len(),
            text@.len() == text.len(),
            j <= sep@.len(),
            forall|m: int| 0 <= m < j ==> text@[k + m] == sep@[m],
        decreases sep.len() - j,
    {
        if text[k + j] != sep[j] {
            assert(text@.subrange(k as int, k + sep@.len())[j as int] != sep@[j as int]);
            return false;
        }
        j = j + 1;
    }
    assert(text@.subrange(k as int, k + sep@.len()) =~= sep@);
    true
}

/// A string made of `chars[from..to]`.
pub fn substring(s: &str, from: usize, to: usize) -> (result: String)
    requires
        from <= to <= s@.len(),
    ensures
        result@ == s@.subrange(from as int, to as int),
{
    s.substring_char(from, to).to_owned()
}

/// Splits `text` at the occurrences of a nonempty `sep`, as `str::split` does.
pub fn split_str(text: &str, sep: &str) -> (result: Vec<String>)
    requires
        sep@.len() > 0,
    ensures
        result@.map_values(|piece: String| piece@) == split(text@, sep@),
{
    let chars = chars_of(text);
    let sep_chars = chars_of(sep);
    let len = chars.len();
    let sep_len = sep_chars.len();

    let mut result: Vec<String> = Vec::new();
    let mut start: usize = 0;
    let mut k: usize = 0;

    while sep_len <= len && k <= len - sep_len
        invariant
            chars@ == text@,
            sep_chars@ == sep@,
            len == text@.len(),
            sep_len == sep@.len(),
            sep_len > 0,
            start <= k <= len,
            find_from(text@, sep@, start as int) == find_from(text@, sep@, k as int),
            result@.map_values(|piece: String| piece@) + split_from(text@, sep@, start as int) == split(text@, sep@),
        decreases len - k,
    {
        if occurs_at(&chars, &sep_chars, k) {
            let ghost before = result@.map_values(|piece: String| piece@);
            result.push(substring(text, start, k));
            assert(result@.map_values(|piece: String| piece@) =~= before.push(text@.subrange(start as int, k as int)));
            assert(split_from(text@, sep@, start as int) =~= seq![text@.subrange(start as int, k as int)]
                + split_from(text@, sep@, (k + sep_len) as int));
            start = k + sep_len;
            k = start;
        } else {
            k = k + 1;
        }
    }

    assert(find_from(text@, sep@, start as int) is None);
    let ghost before = result@.map_values(|piece: String| piece@);
    result.push(substring(text, start, len));
    assert(result@.map_values(|piece: String| piece@) =~= before.push(text@.subrange(start as int, len as int)));
    assert(split_from(text@, sep@, start as int) =~= seq![text@.subrange(start as int, len as int)]);
    result
}

/// Whether `text` starts with `prefix`.
pub fn starts_with(text: &str, prefix: &str) -> (result: bool)
    ensures
        result == (prefix@.len() <= text@.len() && text@.subrange(0, prefix@.len() as int) == prefix@),
{
    let len = text.unicode_len();
    let prefix_len = prefix.unicode_len();
    if prefix_len > len {
        return false;
    }
    let mut i: usize = 0;
    while i < prefix_len
        invariant
            len == text@.len(),
            prefix_len == prefix@.len(),
            prefix_len <= len,
            i <= prefix_len,
            forall|j: int| 0 <= j < i ==> text@[j] == prefix@[j],
        decreases prefix_len - i,
    {
        if text.get_char(i) != prefix.get_char(i) {
            assert(text@.subrange(0, prefix@.len() as int)[i as int] != prefix@[i as int]);
            return false;
        }
        i = i + 1;
    }
    assert(text@.subrange(0, prefix@.len() as int) =~= prefix@);
    true
}

} // verus!
