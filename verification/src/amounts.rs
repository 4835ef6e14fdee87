//! Rewards and durations for the console.

use vstd::prelude::*;

use crate::text::{push_decimal, push_digits};

verus! {

/// Base units of one EQM.
pub const BASE_UNITS_PER_EQM: u64 = 1_000_000;

/// A text without the zeros at its end.
pub open spec fn trimmed(s: Seq<char>) -> Seq<char>
    decreases s.len(),
{
    if s.len() > 0 && s.last() == '0' {
        trimmed(s.drop_last())
    } else {
        s
    }
}

/// The decimals of an amount: six digits, without the zeros at the end.
pub open spec fn fraction_text(base_units: int) -> Seq<char> {
    trimmed(crate::text::digits(base_units % BASE_UNITS_PER_EQM as int, 6))
}

/// An amount in EQM: the whole part, and the decimals if there are any.
pub open spec fn reward_text(base_units: int) -> Seq<char> {
    let whole = crate::text::decimal(base_units / BASE_UNITS_PER_EQM as int);
    if base_units % BASE_UNITS_PER_EQM as int == 0 {
        whole
    } else {
        whole + "."@ + fraction_text(base_units)
    }
}

/// The amount `base_units` in EQM.
pub fn format_reward(base_units: u64) -> (s: String)
    ensures
        s@ == reward_text(base_units as int),
{
    let whole: u64 = base_units / BASE_UNITS_PER_EQM;
    let frac: u64 = base_units % BASE_UNITS_PER_EQM;
    let mut s = String::new();
    push_decimal(&mut s, whole);
    assert(s@ =~= crate::text::decimal(whole as int));
    if frac == 0 {
        return s;
    }
    s.append(".");
    let mut rest: u64 = frac;
    let mut width: usize = 6;
    assert(vstd::arithmetic::power::pow(10, 6) == 1_000_000) by {
        reveal_with_fuel(vstd::arithmetic::power::pow, 7);
    }
    while rest % 10 == 0
        invariant
            0 < rest,
            width <= 6,
            rest < vstd::arithmetic::power::pow(10, width as nat),
            trimmed(crate::text::digits(frac as int, 6)) == trimmed(
                crate::text::digits(rest as int, width as nat),
            ),
        decreases rest,
    {
        proof {
            reveal(vstd::arithmetic::power::pow);
            let all = crate::text::digits(rest as int, width as nat);
            assert(all.drop_last() =~= crate::text::digits(rest as int / 10, (width - 1) as nat));
        }
        rest = rest / 10;
        width = width - 1;
    }
    proof {
        reveal(vstd::arithmetic::power::pow);
        let all = crate::text::digits(rest as int, width as nat);
        assert(all.last() == crate::text::digit(rest as int % 10));
        assert(trimmed(all) == all);
    }
    push_digits(&mut s, rest, width);
    s
}

/// A duration of `total` seconds: hours if there are any, minutes and seconds.
pub open spec fn uptime_text(total: int) -> Seq<char> {
    let h = total / 3600;
    let m = total % 3600 / 60;
    let s = total % 60;
    if h > 0 {
        crate::text::decimal(h) + ":"@ + crate::text::digits(m, 2) + ":"@ + crate::text::digits(s, 2)
    } else {
        crate::text::decimal(m) + ":"@ + crate::text::digits(s, 2)
    }
}

/// A duration of `total` seconds.
pub fn fmt_uptime(total: u64) -> (text: String)
    ensures
        text@ == uptime_text(total as int),
{
    let h: u64 = total / 3600;
    let m: u64 = (total % 3600) / 60;
    let s: u64 = total % 60;
    let mut text = String::new();
    if h > 0 {
        push_decimal(&mut text, h);
        assert(text@ =~= crate::text::decimal(h as int));
        text.append(":");
        push_digits(&mut text, m, 2);
        text.append(":");
        push_digits(&mut text, s, 2);
    } else {
        push_decimal(&mut text, m);
        assert(text@ =~= crate::text::decimal(m as int));
        text.append(":");
        push_digits(&mut text, s, 2);
    }
    text
}

/// The number that a text of decimal digits spells.
pub open spec fn number(s: Seq<char>) -> int
    decreases s.len(),
{
    if s.len() == 0 {
        0
    } else {
        10 * number(s.drop_last()) + (s.last() as int - '0' as int)
    }
}

proof fn lemma_number_of_decimal(v: int)
    requires
        v >= 0,
    ensures
        number(crate::text::decimal(v)) == v,
    decreases v,
{
    let all = crate::text::decimal(v);
    if v < 10 {
        reveal_with_fuel(number, 2);
        assert(all.drop_last().len() == 0);
    } else {
        lemma_number_of_decimal(v / 10);
        assert(all.drop_last() =~= crate::text::decimal(v / 10));
    }
}

proof fn lemma_number_of_digits(v: int, width: nat)
    requires
        0 <= v < vstd::arithmetic::power::pow(10, width),
    ensures
        crate::text::digits(v, width).len() == width,
        number(crate::text::digits(v, width)) == v,
    decreases width,
{
    reveal(vstd::arithmetic::power::pow);
    if width > 0 {
        let all = crate::text::digits(v, width);
        lemma_number_of_digits(v / 10, (width - 1) as nat);
        assert(all.drop_last() =~= crate::text::digits(v / 10, (width - 1) as nat));
    }
}

proof fn lemma_trimmed(s: Seq<char>)
    ensures
        trimmed(s).len() <= s.len(),
        trimmed(s).len() > 0 ==> trimmed(s).last() != '0',
        number(trimmed(s)) * vstd::arithmetic::power::pow(10, (s.len() - trimmed(s).len()) as nat)
            == number(s),
    decreases s.len(),
{
    reveal(vstd::arithmetic::power::pow);
    if s.len() > 0 && s.last() == '0' {
        let before = s.drop_last();
        lemma_trimmed(before);
        let gap = (before.len() - trimmed(before).len()) as nat;
        let tens = vstd::arithmetic::power::pow(10, gap);
        assert(vstd::arithmetic::power::pow(10, gap + 1) == 10 * tens);
        assert(number(trimmed(before)) * (10 * tens) == 10 * (number(trimmed(before)) * tens))
            by (nonlinear_arith);
    }
}

/// An amount is written exactly, and in the shortest way: the whole part and
/// the decimals spell the base units, and the decimals do not end in a zero.
pub proof fn reward_text_is_exact(base_units: int)
    requires
        base_units >= 0,
    ensures
        ({
            let whole = crate::text::decimal(base_units / BASE_UNITS_PER_EQM as int);
            let fraction = fraction_text(base_units);
            &&& reward_text(base_units) == if fraction.len() == 0 {
                whole
            } else {
                whole + "."@ + fraction
            }
            &&& fraction.len() <= 6
            &&& fraction.len() > 0 ==> fraction.last() != '0'
            &&& number(whole) * BASE_UNITS_PER_EQM + number(fraction) * vstd::arithmetic::power::pow(
                10,
                (6 - fraction.len()) as nat,
            ) == base_units
        }),
{
    let frac = base_units % BASE_UNITS_PER_EQM as int;
    let six = crate::text::digits(frac, 6);
    assert(vstd::arithmetic::power::pow(10, 6) == 1_000_000) by {
        reveal_with_fuel(vstd::arithmetic::power::pow, 7);
    }
    lemma_number_of_decimal(base_units / BASE_UNITS_PER_EQM as int);
    lemma_number_of_digits(frac, 6);
    lemma_trimmed(six);
    let fraction = fraction_text(base_units);
    if frac == 0 {
        if fraction.len() > 0 {
            lemma_zero_digits(6);
        }
    } else if fraction.len() == 0 {
        assert(number(fraction) == 0);
        assert(0 * vstd::arithmetic::power::pow(10, 6) == 0);
    }
}

proof fn lemma_zero_digits(width: nat)
    ensures
        trimmed(crate::text::digits(0, width)).len() == 0,
    decreases width,
{
    if width > 0 {
        let all = crate::text::digits(0, width);
        assert(all.last() == '0');
        assert(all.drop_last() =~= crate::text::digits(0, (width - 1) as nat));
        lemma_zero_digits((width - 1) as nat);
    }
}

/// A duration is written exactly: its fields spell the seconds, and minutes
/// under hours, and seconds, stay below sixty.
pub proof fn uptime_text_is_exact(total: int)
    requires
        total >= 0,
    ensures
        ({
            let h = crate::text::decimal(total / 3600);
            let m = crate::text::digits(total % 3600 / 60, 2);
            let s = crate::text::digits(total % 60, 2);
            &&& number(h) * 3600 + number(m) * 60 + number(s) == total
            &&& number(m) == number(crate::text::decimal(total % 3600 / 60))
            &&& 0 <= number(m) < 60
            &&& 0 <= number(s) < 60
        }),
{
    assert(vstd::arithmetic::power::pow(10, 2) == 100) by {
        reveal_with_fuel(vstd::arithmetic::power::pow, 3);
    }
    lemma_number_of_decimal(total / 3600);
    lemma_number_of_decimal(total % 3600 / 60);
    lemma_number_of_digits(total % 3600 / 60, 2);
    lemma_number_of_digits(total % 60, 2);
}

/// Every character is a decimal digit.
pub open spec fn is_numeral(s: Seq<char>) -> bool {
    forall|i: int| 0 <= i < s.len() ==> '0' <= #[trigger] s[i] <= '9'
}

/// A number in decimal reads back: it has at least one digit and nothing else,
/// no zero before its first digit, and spells the number.
pub proof fn decimal_reads_back(v: int)
    requires
        v >= 0,
    ensures
        crate::text::decimal(v).len() > 0,
        is_numeral(crate::text::decimal(v)),
        crate::text::decimal(v).len() > 1 ==> crate::text::decimal(v)[0] != '0',
        number(crate::text::decimal(v)) == v,
    decreases v,
{
    lemma_number_of_decimal(v);
    let all = crate::text::decimal(v);
    if v >= 10 {
        let before = crate::text::decimal(v / 10);
        decimal_reads_back(v / 10);
        assert(all =~= before.push(crate::text::digit(v % 10)));
        assert forall|i: int| 0 <= i < all.len() implies '0' <= #[trigger] all[i] <= '9' by {
            if i < before.len() {
                assert(all[i] == before[i]);
            }
        }
        if before.len() == 1 {
            reveal_with_fuel(number, 2);
            assert(before.drop_last().len() == 0);
            assert(before.last() == before[0]);
        }
        assert(all[0] == before[0]);
    }
}

/// The last digits of a number read back: there are as many as asked for, and
/// they spell the number up to that power of ten.
pub proof fn digits_read_back(v: int, width: nat)
    requires
        v >= 0,
    ensures
        crate::text::digits(v, width).len() == width,
        is_numeral(crate::text::digits(v, width)),
        number(crate::text::digits(v, width)) == v % vstd::arithmetic::power::pow(10, width),
    decreases width,
{
    reveal(vstd::arithmetic::power::pow);
    let all = crate::text::digits(v, width);
    if width > 0 {
        let fewer = (width - 1) as nat;
        let before = crate::text::digits(v / 10, fewer);
        let tens = vstd::arithmetic::power::pow(10, fewer);
        digits_read_back(v / 10, fewer);
        assert(all =~= before.push(crate::text::digit(v % 10)));
        assert(all.drop_last() =~= before);
        assert forall|i: int| 0 <= i < all.len() implies '0' <= #[trigger] all[i] <= '9' by {
            if i < before.len() {
                assert(all[i] == before[i]);
            }
        }
        vstd::arithmetic::power::lemma_pow_positive(10, fewer);
        vstd::arithmetic::div_mod::lemma_mod_breakdown(v, 10, tens);
    } else {
        assert(v % 1 == 0);
    }
}

/// The fields of a text between the separators.
pub open spec fn fields(text: Seq<char>, separator: char) -> Seq<Seq<char>>
    decreases text.len(),
{
    if text.len() == 0 {
        seq![Seq::empty()]
    } else {
        let before = fields(text.drop_last(), separator);
        if text.last() == separator {
            before.push(Seq::empty())
        } else {
            before.drop_last().push(before.last().push(text.last()))
        }
    }
}

proof fn lemma_one_field(text: Seq<char>, separator: char)
    requires
        !text.contains(separator),
    ensures
        fields(text, separator) == seq![text],
    decreases text.len(),
{
    if text.len() > 0 {
        let before = text.drop_last();
        assert(text[text.len() - 1] == text.last());
        assert forall|i: int| 0 <= i < before.len() implies before[i] != separator by {
            assert(text[i] == before[i]);
        }
        lemma_one_field(before, separator);
        assert(before.push(text.last()) =~= text);
        assert(fields(text, separator) =~= seq![text]);
    } else {
        assert(text =~= Seq::empty());
    }
}

proof fn lemma_one_more_field(text: Seq<char>, separator: char, field: Seq<char>)
    requires
        !field.contains(separator),
    ensures
        fields(text + seq![separator] + field, separator) == fields(text, separator).push(field),
    decreases field.len(),
{
    let all = text + seq![separator] + field;
    if field.len() > 0 {
        let before = field.drop_last();
        assert(field[field.len() - 1] == field.last());
        assert forall|i: int| 0 <= i < before.len() implies before[i] != separator by {
            assert(field[i] == before[i]);
        }
        lemma_one_more_field(text, separator, before);
        assert(all.drop_last() =~= text + seq![separator] + before);
        assert(all.last() == field.last());
        assert(before.push(field.last()) =~= field);
        assert(fields(all, separator) =~= fields(text, separator).push(field));
    } else {
        assert(all.drop_last() =~= text);
        assert(all.last() == separator);
        assert(field =~= Seq::empty());
        assert(fields(all, separator) =~= fields(text, separator).push(field));
    }
}

/// A printed duration reads back. Split at its colons it has two fields, or
/// three from an hour on. Read from left to right as hours, if there are three,
/// minutes and seconds they spell the duration, the seconds and the minutes
/// under hours with two digits each and below sixty.
pub proof fn printed_uptime_reads_back(total: int)
    requires
        total >= 0,
    ensures
        ({
            let f = fields(uptime_text(total), ':');
            &&& total < 3600 ==> {
                &&& f.len() == 2
                &&& 60 * number(f[0]) + number(f[1]) == total
                &&& 0 <= number(f[0]) < 60
                &&& 0 <= number(f[1]) < 60
                &&& f[1].len() == 2
            }
            &&& total >= 3600 ==> {
                &&& f.len() == 3
                &&& 3600 * number(f[0]) + 60 * number(f[1]) + number(f[2]) == total
                &&& 0 <= number(f[1]) < 60
                &&& 0 <= number(f[2]) < 60
                &&& f[1].len() == 2
                &&& f[2].len() == 2
            }
            &&& forall|i: int| 0 <= i < f.len() ==> is_numeral(#[trigger] f[i])
            &&& f[0].len() > 0
            &&& f[0].len() > 1 ==> f[0][0] != '0'
        }),
{
    let h = total / 3600;
    let m = total % 3600 / 60;
    let s = total % 60;
    lemma_uptime_fields(total);
    lemma_two_digits(m);
    lemma_two_digits(s);
    if total >= 3600 {
        decimal_reads_back(h);
        assert(3600 * h + 60 * m + s == total);
    } else {
        decimal_reads_back(m);
        assert(60 * m + s == total);
    }
}

proof fn lemma_two_digits(v: int)
    requires
        0 <= v < 60,
    ensures
        crate::text::digits(v, 2).len() == 2,
        is_numeral(crate::text::digits(v, 2)),
        number(crate::text::digits(v, 2)) == v,
{
    assert(vstd::arithmetic::power::pow(10, 2) == 100) by {
        reveal_with_fuel(vstd::arithmetic::power::pow, 3);
    }
    digits_read_back(v, 2);
}

proof fn lemma_uptime_fields(total: int)
    requires
        total >= 0,
    ensures
        total >= 3600 ==> fields(uptime_text(total), ':') == seq![
            crate::text::decimal(total / 3600),
            crate::text::digits(total % 3600 / 60, 2),
            crate::text::digits(total % 60, 2),
        ],
        total < 3600 ==> fields(uptime_text(total), ':') == seq![
            crate::text::decimal(total % 3600 / 60),
            crate::text::digits(total % 60, 2),
        ],
{
    let m = crate::text::digits(total % 3600 / 60, 2);
    let s = crate::text::digits(total % 60, 2);
    reveal_strlit(":");
    assert(":"@ =~= seq![':']);
    lemma_two_digits(total % 3600 / 60);
    lemma_two_digits(total % 60);
    lemma_no_separator(m);
    lemma_no_separator(s);
    let first = if total >= 3600 {
        total / 3600
    } else {
        total % 3600 / 60
    };
    let head = crate::text::decimal(first);
    decimal_reads_back(first);
    lemma_no_separator(head);
    lemma_one_field(head, ':');
    if total >= 3600 {
        lemma_one_more_field(head, ':', m);
        lemma_one_more_field(head + seq![':'] + m, ':', s);
        assert(fields(uptime_text(total), ':') =~= seq![head, m, s]);
    } else {
        lemma_one_more_field(head, ':', s);
        assert(fields(uptime_text(total), ':') =~= seq![head, s]);
    }
}

proof fn lemma_no_separator(s: Seq<char>)
    requires
        is_numeral(s),
    ensures
        !s.contains(':'),
        !s.contains('.'),
{
    if s.contains(':') {
        let i = choose|i: int| 0 <= i < s.len() && s[i] == ':';
        assert('0' <= s[i] <= '9');
    }
    if s.contains('.') {
        let i = choose|i: int| 0 <= i < s.len() && s[i] == '.';
        assert('0' <= s[i] <= '9');
    }
}

proof fn lemma_trimmed_numeral(s: Seq<char>)
    requires
        is_numeral(s),
    ensures
        is_numeral(trimmed(s)),
    decreases s.len(),
{
    if s.len() > 0 && s.last() == '0' {
        let before = s.drop_last();
        assert forall|i: int| 0 <= i < before.len() implies '0' <= #[trigger] before[i] <= '9' by {
            assert(s[i] == before[i]);
        }
        lemma_trimmed_numeral(before);
    }
}

/// A printed amount reads back. Split at its points it has one field, or two if
/// there are decimals. The first spells whole millions of base units; the
/// second, read as decimals, the rest. The decimals are at most six and do not
/// end in a zero.
pub proof fn printed_reward_reads_back(base_units: int)
    requires
        base_units >= 0,
    ensures
        ({
            let f = fields(reward_text(base_units), '.');
            &&& f.len() == 1 || f.len() == 2
            &&& f.len() == 1 ==> number(f[0]) * 1_000_000 == base_units
            &&& f.len() == 2 ==> {
                &&& 0 < f[1].len() <= 6
                &&& f[1].last() != '0'
                &&& number(f[0]) * 1_000_000 + number(f[1]) * vstd::arithmetic::power::pow(
                    10,
                    (6 - f[1].len()) as nat,
                ) == base_units
            }
            &&& forall|i: int| 0 <= i < f.len() ==> is_numeral(#[trigger] f[i])
            &&& f[0].len() > 0
            &&& f[0].len() > 1 ==> f[0][0] != '0'
        }),
{
    let whole = crate::text::decimal(base_units / BASE_UNITS_PER_EQM as int);
    let fraction = fraction_text(base_units);
    reward_text_is_exact(base_units);
    decimal_reads_back(base_units / BASE_UNITS_PER_EQM as int);
    digits_read_back(base_units % BASE_UNITS_PER_EQM as int, 6);
    lemma_trimmed_numeral(crate::text::digits(base_units % BASE_UNITS_PER_EQM as int, 6));
    lemma_no_separator(whole);
    lemma_no_separator(fraction);
    lemma_one_field(whole, '.');
    reveal_strlit(".");
    assert("."@ =~= seq!['.']);
    if fraction.len() > 0 {
        lemma_one_more_field(whole, '.', fraction);
    } else {
        assert(number(fraction) == 0);
        assert(0 * vstd::arithmetic::power::pow(10, 6) == 0);
    }
}

} // verus!
