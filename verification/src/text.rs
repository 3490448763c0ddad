//! Text: white space, ASCII case, decimal numerals and concatenation.

use vstd::prelude::*;
use vstd::string::StringExecFns;

verus! {

/// Whether `c` has the Unicode property `White_Space`.
pub open spec fn is_white_space(c: char) -> bool {
    ||| '\u{9}' <= c <= '\u{d}'
    ||| c == '\u{20}'
    ||| c == '\u{85}'
    ||| c == '\u{a0}'
    ||| c == '\u{1680}'
    ||| '\u{2000}' <= c <= '\u{200a}'
    ||| c == '\u{2028}'
    ||| c == '\u{2029}'
    ||| c == '\u{202f}'
    ||| c == '\u{205f}'
    ||| c == '\u{3000}'
}

/// Whether every character of `s` is white space.
pub open spec fn is_blank(s: Seq<char>) -> bool {
    forall|i: int| 0 <= i < s.len() ==> is_white_space(#[trigger] s[i])
}

/// `s` without its leading white space.
pub open spec fn trimmed_start(s: Seq<char>) -> Seq<char>
    decreases s.len(),
{
    if s.len() > 0 && is_white_space(s.first()) {
        trimmed_start(s.drop_first())
    } else {
        s
    }
}

/// `s` without its trailing white space.
pub open spec fn trimmed_end(s: Seq<char>) -> Seq<char>
    decreases s.len(),
{
    if s.len() > 0 && is_white_space(s.last()) {
        trimmed_end(s.drop_last())
    } else {
        s
    }
}

/// `s` without the white space at either end.
pub open spec fn trimmed(s: Seq<char>) -> Seq<char> {
    trimmed_end(trimmed_start(s))
}

/// `str::trim` takes the white space off both ends, where white space is what the Unicode
/// property `White_Space` says it is.
pub assume_specification[ str::trim ](s: &str) -> (result: &str)
    ensures
        result@ == trimmed(s@),
;

/// The lower-case form of an ASCII letter; any other character itself.
pub open spec fn ascii_lower(c: char) -> char {
    if 'A' <= c <= 'Z' {
        (c as u8 + 32) as char
    } else {
        c
    }
}

/// `s` with its ASCII letters in lower case.
pub open spec fn lowercased(s: Seq<char>) -> Seq<char> {
    s.map_values(|c: char| ascii_lower(c))
}

/// `str::to_ascii_lowercase` maps the letters `A` to `Z` to `a` to `z` and leaves every other
/// character as it is.
pub assume_specification[ str::to_ascii_lowercase ](s: &str) -> (result: String)
    ensures
        result@ == lowercased(s@),
;

/// Whether `s` neither begins nor ends with white space.
pub open spec fn is_bare(s: Seq<char>) -> bool {
    s.len() > 0 ==> !is_white_space(s[0]) && !is_white_space(s[s.len() - 1])
}

/// White space around a text that neither begins nor ends with it is all that trimming removes.
/// What is inside the text stays.
pub proof fn trimming_removes_padding(before: Seq<char>, body: Seq<char>, after: Seq<char>)
    requires
        is_blank(before),
        is_blank(after),
        is_bare(body),
    ensures
        trimmed(before + body + after) == body,
    decreases before.len() + after.len(),
{
    let whole = before + body + after;
    if before.len() > 0 {
        assert(whole.first() == before[0]);
        assert(whole.drop_first() =~= before.drop_first() + body + after);
        trimming_removes_padding(before.drop_first(), body, after);
    } else if body.len() > 0 {
        assert(whole =~= body + after);
        assert(whole.first() == body[0]);
        lemma_trimmed_end(body, after);
    } else {
        assert(whole =~= after);
        lemma_trimmed_start_blank(after);
        assert(trimmed(whole) =~= body);
    }
}

proof fn lemma_trimmed_start_blank(s: Seq<char>)
    requires
        is_blank(s),
    ensures
        trimmed_start(s).len() == 0,
    decreases s.len(),
{
    if s.len() > 0 {
        assert(is_white_space(s[0]));
        assert forall|i: int| 0 <= i < s.drop_first().len() implies is_white_space(
            #[trigger] s.drop_first()[i],
        ) by {
            assert(s.drop_first()[i] == s[i + 1]);
        }
        lemma_trimmed_start_blank(s.drop_first());
    }
}

proof fn lemma_trimmed_end(body: Seq<char>, after: Seq<char>)
    requires
        is_blank(after),
        body.len() > 0,
        !is_white_space(body.last()),
    ensures
        trimmed_end(body + after) == body,
    decreases after.len(),
{
    let whole = body + after;
    if after.len() > 0 {
        assert(whole.last() == after.last());
        assert(whole.drop_last() =~= body + after.drop_last());
        lemma_trimmed_end(body, after.drop_last());
    } else {
        assert(whole =~= body);
    }
}

proof fn lemma_trimmed_start_shape(s: Seq<char>)
    ensures
        trimmed_start(s).len() > 0 ==> !is_white_space(trimmed_start(s).first()),
        trimmed_start(s).len() == 0 ==> is_blank(s),
    decreases s.len(),
{
    if s.len() > 0 && is_white_space(s.first()) {
        lemma_trimmed_start_shape(s.drop_first());
        assert forall|i: int| 0 <= i < s.len() && is_blank(s.drop_first()) implies is_white_space(
            #[trigger] s[i],
        ) by {
            if i > 0 {
                assert(s[i] == s.drop_first()[i - 1]);
            }
        }
    }
}

proof fn lemma_trimmed_end_shape(s: Seq<char>)
    requires
        s.len() > 0 ==> !is_white_space(s.first()),
    ensures
        trimmed_end(s).len() == 0 <==> s.len() == 0,
        s.len() > 0 ==> trimmed_end(s).first() == s.first() && !is_white_space(
            trimmed_end(s).last(),
        ),
    decreases s.len(),
{
    if s.len() > 0 && is_white_space(s.last()) {
        assert(s.drop_last().len() > 0);
        lemma_trimmed_end_shape(s.drop_last());
    }
}

/// Trimming leaves nothing exactly of a blank text, and what it leaves neither begins nor ends
/// with white space, so that trimming again changes nothing.
pub proof fn trimming_is_complete(s: Seq<char>)
    ensures
        trimmed(s).len() == 0 <==> is_blank(s),
        trimmed(s).len() > 0 ==> !is_white_space(trimmed(s).first()) && !is_white_space(
            trimmed(s).last(),
        ),
        trimmed(trimmed(s)) == trimmed(s),
{
    lemma_trimmed_start_shape(s);
    lemma_trimmed_end_shape(trimmed_start(s));
    if is_blank(s) {
        lemma_trimmed_start_blank(s);
    }
}

/// Every text is what trimming leaves of it, with nothing but white space before and after.
pub proof fn trimming_removes_only_padding(s: Seq<char>) -> (padding: (Seq<char>, Seq<char>))
    ensures
        is_blank(padding.0),
        is_blank(padding.1),
        is_bare(trimmed(s)),
        s == padding.0 + trimmed(s) + padding.1,
{
    let before = lemma_start_padding(s);
    let after = lemma_end_padding(trimmed_start(s));
    trimming_is_complete(s);
    assert(s =~= before + trimmed(s) + after);
    (before, after)
}

proof fn lemma_start_padding(s: Seq<char>) -> (before: Seq<char>)
    ensures
        is_blank(before),
        s == before + trimmed_start(s),
    decreases s.len(),
{
    if s.len() > 0 && is_white_space(s.first()) {
        let rest = lemma_start_padding(s.drop_first());
        let before = seq![s.first()] + rest;
        assert(s =~= seq![s.first()] + s.drop_first());
        assert(trimmed_start(s) == trimmed_start(s.drop_first()));
        assert(s =~= before + trimmed_start(s));
        before
    } else {
        let before = Seq::<char>::empty();
        assert(s =~= before + trimmed_start(s));
        before
    }
}

proof fn lemma_end_padding(s: Seq<char>) -> (after: Seq<char>)
    ensures
        is_blank(after),
        s == trimmed_end(s) + after,
    decreases s.len(),
{
    if s.len() > 0 && is_white_space(s.last()) {
        let rest = lemma_end_padding(s.drop_last());
        let after = rest.push(s.last());
        assert(s =~= s.drop_last().push(s.last()));
        assert(trimmed_end(s) == trimmed_end(s.drop_last()));
        assert(s =~= trimmed_end(s) + after);
        after
    } else {
        let after = Seq::<char>::empty();
        assert(s =~= trimmed_end(s) + after);
        after
    }
}

/// The decimal numeral of `n`, without leading zeros.
pub open spec fn decimal(n: nat) -> Seq<char>
    decreases n,
{
    if n < 10 {
        seq![decimal_digit(n)]
    } else {
        decimal(n / 10).push(decimal_digit(n % 10))
    }
}

/// The decimal digit for a number below ten.
pub open spec fn decimal_digit(n: nat) -> char {
    (n + 48) as char
}

/// The text of a decimal digit.
fn digit_text(n: u32) -> (result: &'static str)
    requires
        n < 10,
    ensures
        result@ == seq![decimal_digit(n as nat)],
{
    proof {
        reveal_strlit("0");
        reveal_strlit("1");
        reveal_strlit("2");
        reveal_strlit("3");
        reveal_strlit("4");
        reveal_strlit("5");
        reveal_strlit("6");
        reveal_strlit("7");
        reveal_strlit("8");
        reveal_strlit("9");
    }
    match n {
        0 => "0",
        1 => "1",
        2 => "2",
        3 => "3",
        4 => "4",
        5 => "5",
        6 => "6",
        7 => "7",
        8 => "8",
        _ => "9",
    }
}

/// The decimal numeral of `n`.
pub(crate) fn decimal_text(n: u32) -> (result: String)
    ensures
        result@ == decimal(n as nat),
    decreases n,
{
    if n < 10 {
        String::from_str(digit_text(n))
    } else {
        let mut result = decimal_text(n / 10);
        result.append(digit_text(n % 10));
        assert(result@ =~= decimal(n as nat));
        result
    }
}

/// A decimal numeral holds digits only.
pub proof fn decimal_is_digits(n: nat)
    ensures
        decimal(n).len() > 0,
        forall|i: int| 0 <= i < decimal(n).len() ==> '0' <= #[trigger] decimal(n)[i] <= '9',
    decreases n,
{
    if n >= 10 {
        decimal_is_digits(n / 10);
    }
}

/// The number that a row of decimal digits stands for.
pub open spec fn decimal_value(digits: Seq<char>) -> int
    decreases digits.len(),
{
    if digits.len() == 0 {
        0
    } else {
        decimal_value(digits.drop_last()) * 10 + (digits.last() as int - '0' as int)
    }
}

/// The numeral of a number stands for that number, and only that of zero begins with a zero.
pub proof fn decimal_reads_back(n: nat)
    ensures
        decimal_value(decimal(n)) == n,
        n > 0 ==> decimal(n)[0] != '0',
    decreases n,
{
    if n >= 10 {
        decimal_reads_back(n / 10);
        decimal_is_digits(n / 10);
        assert(decimal(n).drop_last() =~= decimal(n / 10));
        assert(decimal(n)[0] == decimal(n / 10)[0]);
    } else {
        reveal_with_fuel(decimal_value, 2);
        assert(decimal(n).drop_last().len() == 0);
    }
}

/// Different numbers have different numerals.
pub proof fn decimals_differ(m: nat, n: nat)
    requires
        m != n,
    ensures
        decimal(m) != decimal(n),
    decreases m,
{
    decimal_is_digits(m / 10);
    decimal_is_digits(n / 10);
    if m >= 10 && n >= 10 {
        if m / 10 != n / 10 {
            decimals_differ(m / 10, n / 10);
        }
        if decimal(m) == decimal(n) {
            assert(decimal(m).drop_last() =~= decimal(m / 10));
            assert(decimal(n).drop_last() =~= decimal(n / 10));
            assert(decimal(m).last() == decimal_digit(m % 10));
            assert(decimal(n).last() == decimal_digit(n % 10));
        }
    } else if m < 10 && n < 10 {
        assert(decimal(m)[0] == decimal_digit(m));
        assert(decimal(n)[0] == decimal_digit(n));
    } else {
        assert(decimal(m).len() != decimal(n).len());
    }
}

/// The text of `a` followed by that of `b`.
pub(crate) fn join(a: &str, b: &str) -> (result: String)
    ensures
        result@ == a@ + b@,
{
    let mut result = String::from_str(a);
    result.append(b);
    result
}

} // verus!
