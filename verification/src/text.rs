//! Small helpers over `str` and `String`, stated on their views as sequences
//! of characters.

use vstd::prelude::*;
use vstd::std_specs::iter::IteratorSpec;
use vstd::utf8::is_ascii_chars;

verus! {

/// Appends one character to `text`.
///
/// Trusted: stands for `String::push`, which the standard library documents as
/// appending the given character to the end of the string.
#[verifier::external_body]
pub(crate) fn push_char(text: &mut String, c: char)
    ensures
        final(text)@ == old(text)@.push(c),
{
    text.push(c)
}

/// The lower-case form of a capital letter of the basic Latin alphabet; any
/// other character as it is.
pub open spec fn ascii_lower(c: char) -> char {
    if 'A' <= c <= 'Z' {
        (c as int + 32) as char
    } else {
        c
    }
}

/// A text with each of its characters taken through [`ascii_lower`].
pub open spec fn ascii_lowercased(text: Seq<char>) -> Seq<char> {
    Seq::new(text.len(), |i: int| ascii_lower(text[i]))
}

/// The lower-case form of a text that holds characters beyond ASCII, as
/// `str::to_lowercase` gives it.
pub uninterp spec fn lowercased(text: Seq<char>) -> Seq<char>;

/// The lower-case form of a text: within ASCII the capital letters `A` to `Z`
/// become `a` to `z` and nothing else changes; beyond ASCII it is what
/// Unicode's rules give, which are not written out here.
pub open spec fn lower_case(text: Seq<char>) -> Seq<char> {
    if is_ascii_chars(text) {
        ascii_lowercased(text)
    } else {
        lowercased(text)
    }
}

/// Lower-cases `text`.
///
/// Trusted: stands for `str::to_lowercase`, which lower-cases by Unicode's
/// rules. For a text within ASCII those rules turn `A` to `Z` into `a` to `z`
/// and keep every other character, which is stated. For any other text the
/// contract only names the result: it claims that equal texts give equal
/// results and nothing about which characters come out.
#[verifier::external_body]
pub(crate) fn lowercase(text: &str) -> (out: String)
    ensures
        out@ == lower_case(text@),
        !is_ascii_chars(text@) ==> out@ == lowercased(text@),
{
    text.to_lowercase()
}

/// Does `text` begin with `prefix`, character by character?
pub fn starts_with(text: &str, prefix: &str) -> (yes: bool)
    ensures
        yes == prefix@.is_prefix_of(text@),
{
    let mut rest = text.chars();
    let mut wanted = prefix.chars();
    let ghost mut seen: int = 0;
    loop
        invariant
            rest.obeys_prophetic_iter_laws(),
            wanted.obeys_prophetic_iter_laws(),
            0 <= seen <= text@.len(),
            seen <= prefix@.len(),
            rest.remaining() == text@.skip(seen),
            wanted.remaining() == prefix@.skip(seen),
            text@.take(seen) == prefix@.take(seen),
            wanted.decrease() is Some,
        decreases prefix@.len() - seen,
    {
        match wanted.next() {
            None => {
                proof {
                    assert(seen == prefix@.len());
                    assert(prefix@.take(seen) == prefix@);
                    assert(text@.subrange(0, prefix@.len() as int) == text@.take(seen));
                }
                return true;
            },
            Some(w) => {
                match rest.next() {
                    None => {
                        return false;
                    },
                    Some(c) => {
                        proof {
                            assert(w == prefix@[seen]);
                            assert(c == text@[seen]);
                        }
                        if c != w {
                            proof {
                                if prefix@.is_prefix_of(text@) {
                                    assert(text@.subrange(0, prefix@.len() as int)[seen] == prefix@[seen]);
                                }
                            }
                            return false;
                        }
                        proof {
                            assert(text@.skip(seen).drop_first() == text@.skip(seen + 1));
                            assert(prefix@.skip(seen).drop_first() == prefix@.skip(seen + 1));
                            assert(text@.take(seen + 1) == text@.take(seen).push(text@[seen]));
                            assert(prefix@.take(seen + 1) == prefix@.take(seen).push(prefix@[seen]));
                            seen = seen + 1;
                        }
                    },
                }
            },
        }
    }
}

/// The last character of `text`, if it has one.
pub fn last_char(text: &str) -> (last: Option<char>)
    ensures
        text@.len() == 0 ==> last is None,
        text@.len() > 0 ==> last == Some(text@.last()),
{
    let mut last: Option<char> = None;
    let mut rest = text.chars();
    let ghost mut seen: int = 0;
    loop
        invariant
            rest.obeys_prophetic_iter_laws(),
            0 <= seen <= text@.len(),
            rest.remaining() == text@.skip(seen),
            seen == 0 ==> last is None,
            seen > 0 ==> last == Some(text@[seen - 1]),
            rest.decrease() is Some,
        decreases text@.len() - seen,
    {
        match rest.next() {
            None => {
                return last;
            },
            Some(c) => {
                proof {
                    assert(c == text@[seen]);
                    assert(text@.skip(seen).drop_first() == text@.skip(seen + 1));
                    seen = seen + 1;
                }
                last = Some(c);
            },
        }
    }
}

/// `text` with every occurrence of `from` replaced by `to`.
pub open spec fn with_char_replaced(text: Seq<char>, from: char, to: char) -> Seq<char> {
    Seq::new(text.len(), |i: int| if text[i] == from { to } else { text[i] })
}

/// Copies `text`, writing `to` wherever `from` stood.
pub fn replace_char(text: &str, from: char, to: char) -> (out: String)
    ensures
        out@ == with_char_replaced(text@, from, to),
{
    let mut out = String::new();
    let mut rest = text.chars();
    let ghost mut seen: int = 0;
    loop
        invariant
            rest.obeys_prophetic_iter_laws(),
            0 <= seen <= text@.len(),
            rest.remaining() == text@.skip(seen),
            out@ == with_char_replaced(text@.take(seen), from, to),
            rest.decrease() is Some,
        decreases text@.len() - seen,
    {
        match rest.next() {
            None => {
                proof {
                    assert(text@.take(seen) == text@);
                }
                return out;
            },
            Some(c) => {
                proof {
                    assert(c == text@[seen]);
                    assert(text@.skip(seen).drop_first() == text@.skip(seen + 1));
                }
                let written = if c == from { to } else { c };
                push_char(&mut out, written);
                proof {
                    assert(out@ =~= with_char_replaced(text@.take(seen + 1), from, to));
                    seen = seen + 1;
                }
            },
        }
    }
}

/// The character that writes the digit `d`.
pub open spec fn digit_char(d: nat) -> char {
    if d == 0 {
        '0'
    } else if d == 1 {
        '1'
    } else if d == 2 {
        '2'
    } else if d == 3 {
        '3'
    } else if d == 4 {
        '4'
    } else if d == 5 {
        '5'
    } else if d == 6 {
        '6'
    } else if d == 7 {
        '7'
    } else if d == 8 {
        '8'
    } else {
        '9'
    }
}

/// A number written in decimal digits, without sign or leading zeros.
pub open spec fn decimal(n: nat) -> Seq<char>
    decreases n,
{
    if n < 10 {
        seq![digit_char(n)]
    } else {
        decimal(n / 10).push(digit_char(n % 10))
    }
}

fn digit(d: u64) -> (c: char)
    requires
        d < 10,
    ensures
        c == digit_char(d as nat),
{
    if d == 0 {
        '0'
    } else if d == 1 {
        '1'
    } else if d == 2 {
        '2'
    } else if d == 3 {
        '3'
    } else if d == 4 {
        '4'
    } else if d == 5 {
        '5'
    } else if d == 6 {
        '6'
    } else if d == 7 {
        '7'
    } else if d == 8 {
        '8'
    } else {
        '9'
    }
}

/// Writes `n` in decimal.
pub fn decimal_string(n: u64) -> (out: String)
    ensures
        out@ == decimal(n as nat),
{
    let mut low_first: Vec<char> = Vec::new();
    let mut left: u64 = n;
    while left >= 10
        invariant
            decimal(n as nat) =~= decimal(left as nat) + low_first@.reverse(),
        decreases left,
    {
        let ghost before = low_first@;
        let d = digit(left % 10);
        low_first.push(d);
        proof {
            assert(low_first@.reverse() =~= seq![d] + before.reverse());
        }
        left = left / 10;
    }
    let ghost before = low_first@;
    let d = digit(left);
    low_first.push(d);
    proof {
        assert(low_first@.reverse() =~= seq![d] + before.reverse());
    }
    let mut out = String::new();
    let mut at: usize = low_first.len();
    while at > 0
        invariant
            at <= low_first.len(),
            out@ =~= low_first@.reverse().take(low_first.len() - at),
        decreases at,
    {
        at = at - 1;
        push_char(&mut out, low_first[at]);
    }
    proof {
        assert(low_first@.reverse().take(low_first.len() as int) =~= low_first@.reverse());
    }
    out
}

/// The characters of `text`, one by one.
pub fn chars_of(text: &str) -> (out: Vec<char>)
    ensures
        out@ == text@,
{
    let mut out: Vec<char> = Vec::new();
    let mut rest = text.chars();
    let ghost mut seen: int = 0;
    loop
        invariant
            rest.obeys_prophetic_iter_laws(),
            0 <= seen <= text@.len(),
            rest.remaining() == text@.skip(seen),
            out@ == text@.take(seen),
            rest.decrease() is Some,
        decreases text@.len() - seen,
    {
        match rest.next() {
            None => {
                proof {
                    assert(text@.take(seen) == text@);
                }
                return out;
            },
            Some(c) => {
                proof {
                    assert(c == text@[seen]);
                    assert(text@.skip(seen).drop_first() == text@.skip(seen + 1));
                    assert(text@.take(seen + 1) =~= text@.take(seen).push(c));
                    seen = seen + 1;
                }
                out.push(c);
            },
        }
    }
}

/// Does `part` stand in `whole` at position `at`?
pub open spec fn occurs_at(part: Seq<char>, whole: Seq<char>, at: int) -> bool {
    0 <= at && at + part.len() <= whole.len() && whole.subrange(at, at + part.len()) == part
}

/// Does `part` stand somewhere in `whole`?
pub open spec fn occurs_in(part: Seq<char>, whole: Seq<char>) -> bool {
    exists|at: int| #[trigger] occurs_at(part, whole, at)
}

fn matches_at(part: &Vec<char>, whole: &Vec<char>, at: usize) -> (yes: bool)
    requires
        at + part.len() <= whole.len(),
    ensures
        yes == occurs_at(part@, whole@, at as int),
{
    let mut k: usize = 0;
    while k < part.len()
        invariant
            k <= part.len(),
            at + part.len() <= whole.len(),
            forall|h: int| 0 <= h < k ==> whole@[at + h] == part@[h],
        decreases part.len() - k,
    {
        if whole[at + k] != part[k] {
            proof {
                if occurs_at(part@, whole@, at as int) {
                    assert(whole@.subrange(at as int, at + part@.len())[k as int] == part@[k as int]);
                }
            }
            return false;
        }
        k = k + 1;
    }
    proof {
        assert(whole@.subrange(at as int, at + part@.len()) =~= part@);
    }
    true
}

/// Computes [`occurs_in`].
pub fn contains_text(whole: &str, part: &str) -> (yes: bool)
    ensures
        yes == occurs_in(part@, whole@),
{
    let hay = chars_of(whole);
    let needle = chars_of(part);
    if needle.len() > hay.len() {
        proof {
            assert forall|at: int| !#[trigger] occurs_at(part@, whole@, at) by {}
        }
        return false;
    }
    let last: usize = hay.len() - needle.len();
    let mut at: usize = 0;
    while at < last
        invariant
            hay@ == whole@,
            needle@ == part@,
            last == hay.len() - needle.len(),
            at <= last,
            forall|h: int| 0 <= h < at ==> !#[trigger] occurs_at(part@, whole@, h),
        decreases last - at,
    {
        if matches_at(&needle, &hay, at) {
            assert(occurs_at(part@, whole@, at as int));
            return true;
        }
        at = at + 1;
    }
    let found = matches_at(&needle, &hay, last);
    proof {
        if found {
            assert(occurs_at(part@, whole@, last as int));
        } else {
            assert forall|h: int| !#[trigger] occurs_at(part@, whole@, h) by {}
        }
    }
    found
}

} // verus!
