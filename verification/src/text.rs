//! Text helpers: searching a text for another, and taking quotes out of it.

use vstd::prelude::*;

verus! {

/// Whether `pattern` stands in `text` at position `at`.
pub open spec fn occurs_at(text: Seq<char>, pattern: Seq<char>, at: int) -> bool {
    0 <= at && at + pattern.len() <= text.len() && text.subrange(at, at + pattern.len())
        == pattern
}

/// Whether `pattern` stands somewhere in `text`.
pub open spec fn occurs(text: Seq<char>, pattern: Seq<char>) -> bool {
    exists|at: int| occurs_at(text, pattern, at)
}

/// Whether `c` is a single or a double quote.
pub open spec fn is_quote(c: char) -> bool {
    c == '"' || c == '\''
}

/// `text` without its single and double quotes.
pub open spec fn unquoted(text: Seq<char>) -> Seq<char>
    decreases text.len(),
{
    if text.len() == 0 {
        Seq::empty()
    } else if is_quote(text.last()) {
        unquoted(text.drop_last())
    } else {
        unquoted(text.drop_last()).push(text.last())
    }
}

/// Taking the quotes out leaves no quote, and adds no character.
pub proof fn lemma_unquoted(text: Seq<char>)
    ensures
        forall|i: int| 0 <= i < unquoted(text).len() ==> !is_quote(#[trigger] unquoted(text)[i]),
        unquoted(text).len() <= text.len(),
        (forall|i: int| 0 <= i < text.len() ==> !is_quote(#[trigger] text[i])) ==> unquoted(text)
            == text,
    decreases text.len(),
{
    if text.len() > 0 {
        lemma_unquoted(text.drop_last());
        if forall|i: int| 0 <= i < text.len() ==> !is_quote(#[trigger] text[i]) {
            assert forall|i: int| 0 <= i < text.drop_last().len() implies !is_quote(
                #[trigger] text.drop_last()[i],
            ) by {
                assert(text.drop_last()[i] == text[i]);
            }
            assert(!is_quote(text[text.len() - 1]));
            assert(unquoted(text) =~= text);
        }
    }
}

/// The characters of `s`.
pub fn chars_of(s: &str) -> (r: Vec<char>)
    ensures
        r@ == s@,
{
    let n: usize = s.unicode_len();
    let mut out: Vec<char> = Vec::new();
    let mut i: usize = 0;
    while i < n
        invariant
            i <= n,
            n == s@.len(),
            out@ == s@.take(i as int),
        decreases n - i,
    {
        out.push(s.get_char(i));
        assert(s@.take(i + 1) == s@.take(i as int).push(s@[i as int]));
        i = i + 1;
    }
    assert(s@.take(n as int) == s@);
    out
}

/// Whether `pattern` stands in `text` at position `at`.
pub fn matches_at(text: &Vec<char>, pattern: &Vec<char>, at: usize) -> (r: bool)
    requires
        at + pattern.len() <= text.len(),
    ensures
        r == occurs_at(text@, pattern@, at as int),
{
    let mut j: usize = 0;
    while j < pattern.len()
        invariant
            j <= pattern.len(),
            at + pattern.len() <= text.len(),
            forall|k: int| 0 <= k < j ==> text@[at + k] == pattern@[k],
        decreases pattern.len() - j,
    {
        if text[at + j] != pattern[j] {
            assert(text@.subrange(at as int, at + pattern.len())[j as int] != pattern@[j as int]);
            return false;
        }
        j = j + 1;
    }
    assert(text@.subrange(at as int, at + pattern.len()) =~= pattern@);
    true
}

/// Whether `pattern` stands somewhere in `text`.
pub fn contains_text(text: &str, pattern: &str) -> (r: bool)
    ensures
        r == occurs(text@, pattern@),
{
    let t = chars_of(text);
    let p = chars_of(pattern);
    if p.len() > t.len() {
        return false;
    }
    let last: usize = t.len() - p.len();
    let mut at: usize = 0;
    loop
        invariant
            at <= last,
            last == t.len() - p.len(),
            p.len() <= t.len(),
            t@ == text@,
            p@ == pattern@,
            forall|k: int| 0 <= k < at ==> !occurs_at(t@, p@, k),
        decreases last - at,
    {
        if matches_at(&t, &p, at) {
            assert(occurs_at(text@, pattern@, at as int));
            return true;
        }
        if at == last {
            return false;
        }
        at = at + 1;
    }
}

/// `text` without its single and double quotes.
pub fn strip_quotes(text: &str) -> (r: String)
    ensures
        r@ == unquoted(text@),
{
    let n: usize = text.unicode_len();
    let mut out = String::new();
    let mut i: usize = 0;
    while i < n
        invariant
            i <= n,
            n == text@.len(),
            out@ == unquoted(text@.take(i as int)),
        decreases n - i,
    {
        let c = text.get_char(i);
        proof {
            assert(text@.take(i + 1).drop_last() == text@.take(i as int));
            assert(text@.take(i + 1).last() == c);
        }
        if !(c == '"' || c == '\'') {
            out.push(c);
        }
        i = i + 1;
    }
    assert(text@.take(n as int) == text@);
    out
}

} // verus!
