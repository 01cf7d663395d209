//! Text shown in the user interface and in request paths.

use vstd::prelude::*;
use crate::text::{
    all_digits, chars_of, decimal, digit_char, digits_of, digits_value, is_digit, lemma_digits_of,
    lemma_filter_all, push_char, push_decimal, push_digits,
};

verus! {

broadcast use vstd::string::group_string_axioms;

/// `t` with a `,` between each group of three characters, counted from the
/// right: the thousands separators of a number written in `t`.
pub open spec fn group_thousands(t: Seq<char>) -> Seq<char>
    decreases t.len(),
{
    if t.len() <= 3 {
        t
    } else {
        group_thousands(t.take(t.len() - 3)) + seq![','] + t.skip(t.len() - 3)
    }
}

/// The size of `s`, without its sign.
pub open spec fn magnitude(s: i32) -> nat {
    if s < 0 {
        (-(s as int)) as nat
    } else {
        s as nat
    }
}

/// The sign written before a number: `-` for a negative one, nothing else.
pub open spec fn sign_text(s: i32) -> Seq<char> {
    if s < 0 {
        seq!['-']
    } else {
        Seq::empty()
    }
}

/// The salary text of the employee table: `$`, a `-` for a negative salary,
/// and the digits of the salary's size with thousands separators.
pub open spec fn salary_text(s: i32) -> Seq<char> {
    seq!['$'] + sign_text(s) + group_thousands(digits_of(magnitude(s)))
}

/// Appends `group_thousands` of the first `end` characters of `t`.
fn push_grouped(out: &mut String, t: &Vec<char>, end: usize)
    requires
        end <= t.len(),
    ensures
        final(out)@ == old(out)@ + group_thousands(t@.take(end as int)),
    decreases end,
{
    let ghost start = out@;
    let mut from: usize = 0;
    if end > 3 {
        push_grouped(out, t, end - 3);
        push_char(out, ',');
        from = end - 3;
        assert(t@.take(end as int).take(end - 3) =~= t@.take(end - 3));
    }
    let ghost mid = out@;
    let mut i = from;
    while i < end
        invariant
            from <= i <= end,
            end <= t.len(),
            out@ == mid + t@.subrange(from as int, i as int),
        decreases end - i,
    {
        push_char(out, t[i]);
        assert(t@.subrange(from as int, i + 1) =~= t@.subrange(from as int, i as int).push(t@[i as int]));
        i = i + 1;
    }
    assert(t@.take(end as int).skip(from as int) =~= t@.subrange(from as int, end as int));
    if end <= 3 {
        assert(t@.subrange(0, end as int) =~= t@.take(end as int));
    }
}

/// Formats a salary as US dollars with thousands separators: `95000` gives
/// `"$95,000"`, and `-100000` gives `"$-100,000"`.
pub fn format_salary(s: i32) -> (r: String)
    ensures
        r@ == salary_text(s),
{
    let mut out = String::new();
    push_char(&mut out, '$');
    let m: u64 = if s < 0 {
        push_char(&mut out, '-');
        (0i64 - s as i64) as u64
    } else {
        s as u64
    };
    let mut text = String::new();
    push_digits(&mut text, m);
    let digits = chars_of(text.as_str());
    push_grouped(&mut out, &digits, digits.len());
    assert(digits@.take(digits.len() as int) =~= digits@);
    assert(out@ =~= salary_text(s));
    out
}

/// The decimal text of `n` padded with zeros to at least two characters, as
/// the format `{:02}` writes it.
pub open spec fn two_digits(n: u32) -> Seq<char> {
    if n < 10 {
        seq!['0'] + digits_of(n as nat)
    } else {
        digits_of(n as nat)
    }
}

/// The clock text `HH:MM:SS`.
pub open spec fn clock_text(hours: u32, minutes: u32, seconds: u32) -> Seq<char> {
    two_digits(hours) + seq![':'] + two_digits(minutes) + seq![':'] + two_digits(seconds)
}

/// Appends `two_digits(n)`.
fn push_two_digits(out: &mut String, n: u32)
    ensures
        final(out)@ == old(out)@ + two_digits(n),
{
    if n < 10 {
        push_char(out, '0');
    }
    push_decimal(out, n as i64);
}

/// Formats the time of day shown in the top bar, each part with two digits:
/// 9 h 5 min 3 s gives `"09:05:03"`.
pub fn format_clock(hours: u32, minutes: u32, seconds: u32) -> (r: String)
    ensures
        r@ == clock_text(hours, minutes, seconds),
{
    let mut out = String::new();
    push_two_digits(&mut out, hours);
    push_char(&mut out, ':');
    push_two_digits(&mut out, minutes);
    push_char(&mut out, ':');
    push_two_digits(&mut out, seconds);
    out
}

/// The request path of one employee: `/api/employees/` and the decimal id.
pub open spec fn employee_path(id: i32) -> Seq<char> {
    "/api/employees/"@ + decimal(id as int)
}

/// The path that updates and deletes the employee with this id.
pub fn employee_url(id: i32) -> (r: String)
    ensures
        r@ == employee_path(id),
{
    let mut out = String::from_str("/api/employees/");
    push_decimal(&mut out, id as i64);
    out
}

/// The row counter under the search box: the number of rows, then ` rows`.
pub open spec fn row_count_text(n: nat) -> Seq<char> {
    digits_of(n) + " rows"@
}

/// Formats the number of visible rows: `3` gives `"3 rows"`.
pub fn row_count_label(n: usize) -> (r: String)
    ensures
        r@ == row_count_text(n as nat),
{
    let mut out = String::new();
    push_digits(&mut out, n as u64);
    out.append(" rows");
    out
}


/// Whether a character is not a thousands separator.
pub open spec fn not_comma() -> spec_fn(char) -> bool {
    |c: char| c != ','
}

/// Taking the separators out of a grouped text gives the text back.
proof fn lemma_ungroup(t: Seq<char>)
    requires
        forall|k: int| 0 <= k < t.len() ==> #[trigger] t[k] != ',',
    ensures
        group_thousands(t).filter(not_comma()) == t,
    decreases t.len(),
{
    if t.len() <= 3 {
        lemma_filter_all(t, not_comma());
    } else {
        let a = t.take(t.len() - 3);
        let b = t.skip(t.len() - 3);
        assert forall|k: int| 0 <= k < a.len() implies #[trigger] a[k] != ',' by {
            assert(a[k] == t[k]);
        }
        assert forall|k: int| 0 <= k < b.len() implies not_comma()(#[trigger] b[k]) by {
            assert(b[k] == t[t.len() - 3 + k]);
        }
        lemma_ungroup(a);
        lemma_filter_all(b, not_comma());
        vstd::seq::Seq::filter_distributes_over_add(group_thousands(a) + seq![','], b, not_comma());
        vstd::seq::Seq::filter_distributes_over_add(group_thousands(a), seq![','], not_comma());
        reveal_with_fuel(Seq::<_>::filter, 2);
        assert(seq![','].drop_last() =~= Seq::<char>::empty());
        assert(seq![','].filter(not_comma()) =~= Seq::<char>::empty());
        assert(a + b =~= t);
    }
}

/// A grouped text starts with the first character of the text.
proof fn lemma_group_first(t: Seq<char>)
    requires
        t.len() > 0,
    ensures
        group_thousands(t).len() > 0,
        group_thousands(t)[0] == t[0],
    decreases t.len(),
{
    if t.len() > 3 {
        let a = t.take(t.len() - 3);
        lemma_group_first(a);
        assert(a[0] == t[0]);
    }
}

/// The salary text is `$`, the sign, then the digits of the salary with only
/// thousands separators added: a `-` is followed by a digit, never by a
/// separator, and removing the separators gives `$` and the number as
/// `to_string` writes it.
pub proof fn lemma_salary_text_digits(s: i32)
    ensures
        salary_text(s)[0] == '$',
        s < 0 ==> salary_text(s)[1] == '-' && is_digit(salary_text(s)[2]),
        s >= 0 ==> is_digit(salary_text(s)[1]),
        salary_text(s).drop_first().filter(not_comma()) == decimal(s as int),
{
    let m = magnitude(s);
    let t = digits_of(m);
    lemma_digits_of(m);
    assert forall|k: int| 0 <= k < t.len() implies #[trigger] t[k] != ',' by {
        assert(is_digit(t[k]));
    }
    lemma_ungroup(t);
    lemma_group_first(t);
    assert(is_digit(t[0]));
    let sg = sign_text(s);
    assert forall|k: int| 0 <= k < sg.len() implies not_comma()(#[trigger] sg[k]) by {}
    lemma_filter_all(sg, not_comma());
    vstd::seq::Seq::filter_distributes_over_add(sg, group_thousands(t), not_comma());
    assert(salary_text(s).drop_first() =~= sg + group_thousands(t));
    assert(decimal(s as int) =~= sg + t);
    if s < 0 {
        assert(salary_text(s)[2] == group_thousands(t)[0]);
    } else {
        assert(salary_text(s)[1] == group_thousands(t)[0]);
    }
}


/// The shape of a grouped text: read from the right, every separator is
/// followed by exactly three characters before the next separator or the end,
/// the first group has one to three characters, and no separator is added
/// when the text has at most three characters.
pub proof fn lemma_group_shape(t: Seq<char>)
    requires
        forall|k: int| 0 <= k < t.len() ==> #[trigger] t[k] != ',',
    ensures
        t.len() <= 3 ==> group_thousands(t) == t,
        forall|i: int| 0 <= i < group_thousands(t).len() && #[trigger] group_thousands(t)[i] == ','
            ==> i + 3 < group_thousands(t).len() && (group_thousands(t).len() - 1 - i) % 4 == 3,
        forall|i: int| 0 <= i < group_thousands(t).len() && (group_thousands(t).len() - 1 - i) % 4 == 3
            && i > 0 ==> #[trigger] group_thousands(t)[i] == ',',
        t.len() > 0 ==> group_thousands(t)[0] != ',',
        group_thousands(t).len() == t.len() + (if t.len() == 0 { 0 } else { (t.len() - 1) / 3 }),
    decreases t.len(),
{
    if t.len() > 3 {
        let a = t.take(t.len() - 3);
        let b = t.skip(t.len() - 3);
        assert forall|k: int| 0 <= k < a.len() implies #[trigger] a[k] != ',' by {
            assert(a[k] == t[k]);
        }
        lemma_group_shape(a);
        let g = group_thousands(a);
        let r = group_thousands(t);
        assert(r == g + seq![','] + b);
        let n = r.len();
        assert(n == g.len() + 4);
        assert forall|i: int| 0 <= i < n && #[trigger] r[i] == ',' implies i + 3 < n && (n - 1 - i) % 4 == 3 by {
            if i < g.len() {
                assert(r[i] == g[i]);
            } else if i > g.len() {
                assert(r[i] == b[i - g.len() - 1]);
                assert(b[i - g.len() - 1] == t[t.len() - 3 + (i - g.len() - 1)]);
            }
        }
        assert forall|i: int| 0 <= i < n && (n - 1 - i) % 4 == 3 && i > 0 implies #[trigger] r[i] == ',' by {
            if i < g.len() {
                assert(r[i] == g[i]);
                assert((g.len() - 1 - i) % 4 == 3);
            }
        }
        if a.len() > 0 {
            assert(r[0] == g[0]);
        }
        assert((t.len() - 1) / 3 == (a.len() - 1) / 3 + 1);
    }
}

/// A salary's digits are grouped by three from the right: the salary text is
/// `$`, the sign, and a grouped run of digits whose separators stand exactly
/// where the shape of thousands separators puts them.
pub proof fn lemma_salary_groups(s: i32)
    ensures
        ({
            let g = group_thousands(digits_of(magnitude(s)));
            &&& salary_text(s) == seq!['$'] + sign_text(s) + g
            &&& g[0] != ','
            &&& forall|i: int| 0 <= i < g.len() && #[trigger] g[i] == ',' ==> i + 3 < g.len() && (g.len() - 1 - i) % 4 == 3
            &&& forall|i: int| 0 <= i < g.len() && (g.len() - 1 - i) % 4 == 3 && i > 0 ==> #[trigger] g[i] == ','
        }),
{
    let t = digits_of(magnitude(s));
    lemma_digits_of(magnitude(s));
    assert forall|k: int| 0 <= k < t.len() implies #[trigger] t[k] != ',' by {
        assert(is_digit(t[k]));
    }
    lemma_group_shape(t);
}

/// A part of the clock has at least two digits, exactly two below one
/// hundred, a leading zero below ten, and reads as the number.
pub proof fn lemma_two_digits_meaning(n: u32)
    ensures
        n < 100 ==> two_digits(n).len() == 2,
        n < 10 ==> two_digits(n)[0] == '0',
        two_digits(n).len() >= 2,
        all_digits(two_digits(n)),
        digits_value(two_digits(n)) == n,
{
    lemma_digits_of(n as nat);
    let d = digits_of(n as nat);
    if n < 10 {
        let t = two_digits(n);
        assert(t == seq!['0'] + d);
        assert(t.drop_last() =~= seq!['0']);
        assert(seq!['0'].drop_last() =~= Seq::<char>::empty());
        assert(digits_value(Seq::<char>::empty()) == 0);
        assert(seq!['0'].last() == '0');
        assert(digits_value(seq!['0']) == 0);
        assert(d.len() == 1);
        assert(d.drop_last() =~= Seq::<char>::empty());
        assert(t.last() == d.last());
        assert forall|i: int| 0 <= i < t.len() implies is_digit(#[trigger] t[i]) by {
            if i == 1 {
                assert(t[1] == d[0]);
            }
        }
    } else {
        assert(d.len() >= 2) by {
            assert(d == digits_of(n as nat / 10).push(digit_char(n as nat % 10)));
        }
        if n < 100 {
            assert(digits_of(n as nat / 10).len() == 1);
        }
    }
}

/// The clock text is the three parts with `:` between them; with each part
/// below one hundred it has eight characters, `:` at positions 2 and 5.
pub proof fn lemma_clock_meaning(hours: u32, minutes: u32, seconds: u32)
    requires
        hours < 100,
        minutes < 100,
        seconds < 100,
    ensures
        clock_text(hours, minutes, seconds).len() == 8,
        clock_text(hours, minutes, seconds)[2] == ':',
        clock_text(hours, minutes, seconds)[5] == ':',
        digits_value(clock_text(hours, minutes, seconds).subrange(0, 2)) == hours,
        digits_value(clock_text(hours, minutes, seconds).subrange(3, 5)) == minutes,
        digits_value(clock_text(hours, minutes, seconds).subrange(6, 8)) == seconds,
{
    lemma_two_digits_meaning(hours);
    lemma_two_digits_meaning(minutes);
    lemma_two_digits_meaning(seconds);
    let c = clock_text(hours, minutes, seconds);
    assert(c.subrange(0, 2) =~= two_digits(hours));
    assert(c.subrange(3, 5) =~= two_digits(minutes));
    assert(c.subrange(6, 8) =~= two_digits(seconds));
}

} // verus!
