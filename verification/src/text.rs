//! Text: searching it, and writing numbers.

use vstd::prelude::*;

verus! {

/// `pat` occurs in `s`.
pub open spec fn occurs_in(pat: Seq<char>, s: Seq<char>) -> bool {
    exists|i: int| #[trigger] occurs_at(pat, s, i)
}

/// `pat` occurs in `s` at position `i`.
pub open spec fn occurs_at(pat: Seq<char>, s: Seq<char>, i: int) -> bool {
    0 <= i && i + pat.len() <= s.len() && s.subrange(i, i + pat.len()) == pat
}

/// The characters of a string.
fn chars_of(s: &str) -> (chars: Vec<char>)
    ensures
        chars@ == s@,
{
    let mut chars: Vec<char> = Vec::new();
    for c in it: s.chars()
        invariant
            it.seq() == s@,
            chars@ == it.seq().take(it.index() as int),
    {
        chars.push(c);
        assert(it.seq().take(it.index() as int + 1) =~= it.seq().take(it.index() as int).push(c));
    }
    assert(s@.take(s@.len() as int) =~= s@);
    chars
}

/// Whether `pat` occurs in `s`.
pub fn contains(s: &str, pat: &str) -> (found: bool)
    ensures
        found == occurs_in(pat@, s@),
{
    let hay = chars_of(s);
    let needle = chars_of(pat);
    let hay_len: usize = hay.len();
    if needle.len() > hay_len {
        return false;
    }
    let mut i: usize = 0;
    while i <= hay_len - needle.len()
        invariant
            hay@ == s@,
            hay_len == hay@.len(),
            needle@ == pat@,
            needle@.len() <= hay@.len(),
            i <= hay@.len() - needle@.len() + 1,
            forall|m: int| 0 <= m < i ==> !#[trigger] occurs_at(pat@, s@, m),
        decreases hay@.len() - i,
    {
        let mut j: usize = 0;
        while j < needle.len() && hay[i + j] == needle[j]
            invariant
                hay@ == s@,
                hay_len == hay@.len(),
                needle@ == pat@,
                i + needle@.len() <= hay@.len(),
                j <= needle@.len(),
                forall|m: int| 0 <= m < j ==> hay@[i + m] == needle@[m],
            decreases needle@.len() - j,
        {
            j += 1;
        }
        if j == needle.len() {
            assert(s@.subrange(i as int, i + pat@.len()) =~= pat@);
            assert(occurs_at(pat@, s@, i as int));
            return true;
        }
        assert(!occurs_at(pat@, s@, i as int)) by {
            assert(hay@[i + j] != needle@[j as int]);
            assert(s@.subrange(i as int, i + pat@.len())[j as int] == hay@[i + j]);
        }
        i += 1;
    }
    assert forall|m: int| !#[trigger] occurs_at(pat@, s@, m) by {
        if 0 <= m && m + pat@.len() <= s@.len() {
            assert(m < i);
        }
    }
    false
}

/// The digit `d` as a character.
pub open spec fn digit(d: int) -> char {
    if d == 0 {
        '0'
    } else if d == 1 {
        '1'
    } else if d == 2 {
        '2'
    } else if d == 3 {
        '3'
    } else if d == 4 {
        '4'
    } else if d == 5 {
        '5'
    } else if d == 6 {
        '6'
    } else if d == 7 {
        '7'
    } else if d == 8 {
        '8'
    } else {
        '9'
    }
}

/// A number in decimal, without leading zeros.
pub open spec fn decimal(v: int) -> Seq<char>
    decreases v,
{
    if v < 10 {
        seq![digit(v)]
    } else {
        decimal(v / 10).push(digit(v % 10))
    }
}

/// The last `width` digits of a number in decimal, with leading zeros.
pub open spec fn digits(v: int, width: nat) -> Seq<char>
    decreases width,
{
    if width == 0 {
        Seq::empty()
    } else {
        digits(v / 10, (width - 1) as nat).push(digit(v % 10))
    }
}

fn digit_str(d: u64) -> (s: &'static str)
    requires
        d < 10,
    ensures
        s@ == seq![digit(d as int)],
{
    proof {
        reveal_strlit("0");
        reveal_strlit("1");
        reveal_strlit("2");
        reveal_strlit("3");
        reveal_strlit("4");
        reveal_strlit("5");
        reveal_strlit("6");
        reveal_strlit("7");
        reveal_strlit("8");
        reveal_strlit("9");
    }
    match d {
        0 => "0",
        1 => "1",
        2 => "2",
        3 => "3",
        4 => "4",
        5 => "5",
        6 => "6",
        7 => "7",
        8 => "8",
        _ => "9",
    }
}

/// Appends `v` in decimal.
pub fn push_decimal(out: &mut String, v: u64)
    ensures
        final(out)@ == old(out)@ + decimal(v as int),
    decreases v,
{
    if v >= 10 {
        push_decimal(out, v / 10);
    }
    out.append(digit_str(v % 10));
    assert(out@ =~= old(out)@ + decimal(v as int));
}

/// Appends the last `width` digits of `v`.
pub fn push_digits(out: &mut String, v: u64, width: usize)
    ensures
        final(out)@ == old(out)@ + digits(v as int, width as nat),
    decreases width,
{
    if width > 0 {
        push_digits(out, v / 10, width - 1);
        out.append(digit_str(v % 10));
    }
    assert(out@ =~= old(out)@ + digits(v as int, width as nat));
}

/// `v` in decimal.
pub fn decimal_text(v: u64) -> (s: String)
    ensures
        s@ == decimal(v as int),
{
    let mut s = String::new();
    push_decimal(&mut s, v);
    assert(s@ =~= decimal(v as int));
    s
}

/// A text occurs in another where that is something, the text, and something
/// behind it.
pub proof fn occurs_in_means_it_can_be_cut_out(pat: Seq<char>, s: Seq<char>)
    ensures
        occurs_in(pat, s) <==> exists|before: Seq<char>, behind: Seq<char>|
            s == #[trigger] (before + pat + behind),
{
    if occurs_in(pat, s) {
        let i = choose|i: int| #[trigger] occurs_at(pat, s, i);
        let before = s.take(i);
        let behind = s.skip(i + pat.len());
        assert(s =~= s.take(i) + s.subrange(i, i + pat.len()) + s.skip(i + pat.len()));
        assert(s == before + pat + behind);
    }
    if exists|before: Seq<char>, behind: Seq<char>| s == #[trigger] (before + pat + behind) {
        let (before, behind) = choose|before: Seq<char>, behind: Seq<char>|
            s == #[trigger] (before + pat + behind);
        occurs_between(before, pat, behind);
    }
}

/// What occurs in a text occurs in all that begins with it.
pub proof fn occurs_in_longer(pat: Seq<char>, s: Seq<char>, behind: Seq<char>)
    requires
        occurs_in(pat, s),
    ensures
        occurs_in(pat, s + behind),
{
    let i = choose|i: int| #[trigger] occurs_at(pat, s, i);
    assert((s + behind).subrange(i, i + pat.len()) =~= s.subrange(i, i + pat.len()));
    assert(occurs_at(pat, s + behind, i));
}

/// A text occurs between any two others.
pub proof fn occurs_between(before: Seq<char>, pat: Seq<char>, behind: Seq<char>)
    ensures
        occurs_in(pat, before + pat + behind),
{
    let s = before + pat + behind;
    let i = before.len() as int;
    assert(s.subrange(i, i + pat.len()) =~= pat);
    assert(occurs_at(pat, s, i));
}

} // verus!
