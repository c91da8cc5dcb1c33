use vstd::prelude::*;

verus! {

/// Unicode's White_Space property.
pub open spec fn is_white_space(c: char) -> bool {
    let u = c as int;
    (0x9 <= u <= 0xd) || u == 0x20 || u == 0x85 || u == 0xa0 || u == 0x1680 || (0x2000 <= u
        <= 0x200a) || u == 0x2028 || u == 0x2029 || u == 0x202f || u == 0x205f || u == 0x3000
}

/// `s` without its leading white space.
pub open spec fn trim_start(s: Seq<char>) -> Seq<char>
    decreases s.len(),
{
    if s.len() > 0 && is_white_space(s[0]) {
        trim_start(s.drop_first())
    } else {
        s
    }
}

/// `s` without its trailing white space.
pub open spec fn trim_end(s: Seq<char>) -> Seq<char>
    decreases s.len(),
{
    if s.len() > 0 && is_white_space(s.last()) {
        trim_end(s.drop_last())
    } else {
        s
    }
}

/// `s` without its leading and trailing white space.
pub open spec fn trimmed(s: Seq<char>) -> Seq<char> {
    trim_end(trim_start(s))
}

/// Relies on `str::trim`: it removes leading and trailing characters with
/// the Unicode White_Space property.
#[verifier::external_body]
pub(crate) fn trim_text(s: &String) -> (r: String)
    ensures
        r@ == trimmed(s@),
{
    s.trim().to_string()
}

/// Relies on `str::chars`: it yields the characters of `s` in order.
#[verifier::external_body]
pub(crate) fn chars_of(s: &String) -> (r: Vec<char>)
    ensures
        r@ == s@,
{
    s.chars().collect()
}

/// Text made of white space alone trims to nothing.
pub proof fn lemma_blank_trims_empty(s: Seq<char>)
    requires
        forall|i: int| 0 <= i < s.len() ==> is_white_space(#[trigger] s[i]),
    ensures
        trimmed(s).len() == 0,
    decreases s.len(),
{
    if s.len() > 0 {
        let t = s.drop_first();
        assert forall|i: int| 0 <= i < t.len() implies is_white_space(#[trigger] t[i]) by {
            assert(t[i] == s[i + 1]);
        }
        lemma_blank_trims_empty(t);
    }
}

/// Trimmed text is its own trim.
pub proof fn lemma_trim_idempotent(s: Seq<char>)
    ensures
        trimmed(trimmed(s)) == trimmed(s),
{
    lemma_trim_start_stops(s);
    let a = trim_start(s);
    lemma_trim_end_keeps_start(a);
    lemma_trim_end_stops(a);
    assert(trim_start(trim_end(a)) == trim_end(a));
}

proof fn lemma_trim_start_stops(s: Seq<char>)
    ensures
        trim_start(s).len() > 0 ==> !is_white_space(trim_start(s)[0]),
    decreases s.len(),
{
    if s.len() > 0 && is_white_space(s[0]) {
        lemma_trim_start_stops(s.drop_first());
    }
}

proof fn lemma_trim_end_stops(s: Seq<char>)
    ensures
        trim_end(s).len() > 0 ==> !is_white_space(trim_end(s).last()),
        trim_end(trim_end(s)) == trim_end(s),
    decreases s.len(),
{
    if s.len() > 0 && is_white_space(s.last()) {
        lemma_trim_end_stops(s.drop_last());
    }
}

/// Trimming the end keeps the first character, where something is left.
proof fn lemma_trim_end_keeps_start(s: Seq<char>)
    ensures
        trim_end(s).len() <= s.len(),
        trim_end(s).len() > 0 ==> trim_end(s)[0] == s[0],
    decreases s.len(),
{
    if s.len() > 0 && is_white_space(s.last()) {
        lemma_trim_end_keeps_start(s.drop_last());
    }
}

} // verus!
