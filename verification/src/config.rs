//! Worker configuration.

use vstd::prelude::*;

use crate::error::WorkerError;
use crate::text::{
    decimal, decimals_are_worth_their_number, digit_char, signed_decimal, to_chars, worth,
};
use crate::time::Duration;

verus! {

/// Worker runtime configuration.
#[derive(Clone, Debug)]
pub struct Config {
    /// Data-api base URL, without a trailing slash.
    pub data_api_url: String,
    /// Shared secret for the data-api.
    pub shared_secret: Option<String>,
    /// The same secret under its older name.
    pub legacy_shared_secret: Option<String>,
    /// Seconds between two REST reconciliations.
    pub poll_interval_secs: u64,
    /// Whisper HTTP endpoint.
    pub whisper_url: String,
    pub whisper_model: String,
    /// Path of the voice activity model.
    pub vad_model_path: String,
    pub vad_min_speech_ms: u32,
    pub vad_min_silence_ms: u32,
    pub vad_pad_ms: u32,
    /// Whether the admin surface is served.
    pub admin_enabled: bool,
    /// Retry delays in milliseconds, separated by commas.
    pub retry_backoff_ms: String,
    pub log_level: String,
    /// Endpoint of the language model for scene detection, if there is one.
    pub scene_llm_url: Option<String>,
    pub scene_llm_model: String,
    /// Pseudonym of the game master, if it is known.
    pub gm_speaker_id: Option<String>,
}

/// Unicode white space.
pub open spec fn is_white(c: char) -> bool {
    let n = c as u32;
    ||| 0x9 <= n <= 0xd
    ||| n == 0x20
    ||| n == 0x85
    ||| n == 0xa0
    ||| n == 0x1680
    ||| 0x2000 <= n <= 0x200a
    ||| n == 0x2028
    ||| n == 0x2029
    ||| n == 0x202f
    ||| n == 0x205f
    ||| n == 0x3000
}

/// A text without the white space at its end.
pub open spec fn trim_end(s: Seq<char>) -> Seq<char>
    decreases s.len(),
{
    if s.len() > 0 && is_white(s.last()) {
        trim_end(s.drop_last())
    } else {
        s
    }
}

/// A text without the white space at its two ends.
pub open spec fn trim(s: Seq<char>) -> Seq<char>
    decreases s.len(),
{
    if s.len() > 0 && is_white(s[0]) {
        trim(s.drop_first())
    } else {
        trim_end(s)
    }
}

/// The fields of a text that are separated by commas. There is always at least
/// one.
pub open spec fn fields(s: Seq<char>) -> Seq<Seq<char>>
    decreases s.len(),
{
    if s.len() == 0 {
        seq![Seq::empty()]
    } else {
        let before = fields(s.drop_last());
        if s.last() == ',' {
            before.push(Seq::empty())
        } else {
            before.drop_last().push(before.last().push(s.last()))
        }
    }
}

/// What is wrong with a number.
#[derive(Clone, Copy, Debug, PartialEq, Eq, Structural)]
pub enum NumberError {
    /// It holds something else than digits, or nothing behind its sign.
    InvalidDigit,
    /// It does not fit in 64 bits.
    TooLarge,
}

pub open spec fn is_digit(c: char) -> bool {
    '0' <= c <= '9'
}

pub open spec fn digit_value(c: char) -> nat {
    (c as u32 - '0' as u32) as nat
}

/// The value of a row of digits, or the first thing that is wrong with it.
pub open spec fn digits_value(s: Seq<char>) -> Result<nat, NumberError>
    decreases s.len(),
{
    if s.len() == 0 {
        Ok(0)
    } else {
        match digits_value(s.drop_last()) {
            Err(e) => Err(e),
            Ok(v) => if !is_digit(s.last()) {
                Err(NumberError::InvalidDigit)
            } else if v * 10 + digit_value(s.last()) > u64::MAX {
                Err(NumberError::TooLarge)
            } else {
                Ok(v * 10 + digit_value(s.last()))
            },
        }
    }
}

/// The value of a number: digits with at most one leading plus sign.
pub open spec fn number(s: Seq<char>) -> Result<nat, NumberError> {
    let digits = if s.len() > 0 && s[0] == '+' {
        s.drop_first()
    } else {
        s
    };
    if digits.len() == 0 {
        Err(NumberError::InvalidDigit)
    } else {
        digits_value(digits)
    }
}

/// The numbers in a list of fields. Fields are trimmed and blank ones are
/// skipped; the first field that is not a number decides the error.
pub open spec fn numbers(list: Seq<Seq<char>>) -> Result<Seq<nat>, NumberError>
    decreases list.len(),
{
    if list.len() == 0 {
        Ok(Seq::empty())
    } else {
        match numbers(list.drop_last()) {
            Err(e) => Err(e),
            Ok(before) => {
                let field = trim(list.last());
                if field.len() == 0 {
                    Ok(before)
                } else {
                    match number(field) {
                        Ok(n) => Ok(before.push(n)),
                        Err(e) => Err(e),
                    }
                }
            },
        }
    }
}

/// What is printed for a faulty number.
pub open spec fn number_error_text(e: NumberError) -> Seq<char> {
    match e {
        NumberError::InvalidDigit => "invalid digit found in string"@,
        NumberError::TooLarge => "number too large to fit in target type"@,
    }
}

/// White space is what Unicode calls so, by its code points.
pub proof fn white_space_by_code_point(c: char)
    ensures
        is_white(c) <==> set![
            9int, 10, 11, 12, 13, 32, 133, 160, 5760, 8192, 8193, 8194, 8195, 8196, 8197, 8198, 8199,
            8200, 8201, 8202, 8232, 8233, 8239, 8287, 12288,
        ].contains(c as int),
{
}

/// Trimming takes away the white space before and behind a text, and nothing
/// of a text that neither begins nor ends with white space.
pub proof fn trimming_leaves_what_stands_between(
    before: Seq<char>,
    text: Seq<char>,
    after: Seq<char>,
)
    requires
        forall|i: int| 0 <= i < before.len() ==> is_white(#[trigger] before[i]),
        forall|i: int| 0 <= i < after.len() ==> is_white(#[trigger] after[i]),
        text.len() > 0 ==> !is_white(text[0]) && !is_white(text.last()),
    ensures
        trim(before + text + after) == text,
{
    let s = before + text + after;
    let start: int = if text.len() == 0 { s.len() as int } else { before.len() as int };
    let end: int = start + text.len();
    assert forall|i: int| 0 <= i < start implies is_white(#[trigger] s[i]) by {
        if i < before.len() {
            assert(s[i] == before[i]);
        } else {
            assert(s[i] == after[i - before.len()]);
        }
    }
    assert forall|i: int| end <= i < s.len() implies is_white(#[trigger] s[i]) by {
        assert(s[i] == after[i - before.len() - text.len()]);
    }
    if text.len() > 0 {
        assert(s[start] == text[0]);
        assert(s[end - 1] == text.last());
    }
    trim_is_subrange(s, start, end);
    assert(s.subrange(start, end) =~= text);
}

/// Texts with a comma between each two of them.
pub open spec fn with_commas(list: Seq<Seq<char>>) -> Seq<char>
    decreases list.len(),
{
    if list.len() <= 1 {
        list[0]
    } else {
        with_commas(list.drop_last()) + seq![','] + list.last()
    }
}

proof fn fields_of_longer_text(s: Seq<char>, t: Seq<char>)
    requires
        !t.contains(','),
    ensures
        fields(s).len() > 0,
        fields(s + t) == fields(s).drop_last().push(fields(s).last() + t),
    decreases t.len(),
{
    fields_nonempty(s);
    if t.len() == 0 {
        assert(s + t =~= s);
        assert(fields(s).last() + t =~= fields(s).last());
        assert(fields(s).drop_last().push(fields(s).last()) =~= fields(s));
    } else {
        let front = t.drop_last();
        assert(t.contains(t.last()));
        assert(!front.contains(',')) by {
            if front.contains(',') {
                let i = choose|i: int| 0 <= i < front.len() && front[i] == ',';
                assert(t[i] == ',');
            }
        }
        fields_of_longer_text(s, front);
        assert((s + t).drop_last() =~= s + front);
        assert((s + t).last() == t.last());
        assert((fields(s).last() + front).push(t.last()) =~= fields(s).last() + t);
        let before = fields(s + front);
        assert(before.drop_last() =~= fields(s).drop_last());
        assert(before.last() == fields(s).last() + front);
    }
}

/// Texts without commas are told apart again when commas are put between them.
pub proof fn commas_tell_fields_apart(list: Seq<Seq<char>>)
    requires
        list.len() > 0,
        forall|i: int| 0 <= i < list.len() ==> !(#[trigger] list[i]).contains(','),
    ensures
        fields(with_commas(list)) == list,
    decreases list.len(),
{
    let last = list.last();
    assert(!list[list.len() - 1].contains(','));
    if list.len() == 1 {
        reveal_with_fuel(fields, 2);
        fields_of_longer_text(Seq::empty(), last);
        assert(Seq::<char>::empty() + last =~= last);
        assert(fields(Seq::empty()).drop_last() =~= Seq::empty());
        assert(fields(last) =~= list);
    } else {
        let front = list.drop_last();
        assert forall|i: int| 0 <= i < front.len() implies !(#[trigger] front[i]).contains(',') by {
            assert(front[i] == list[i]);
        }
        commas_tell_fields_apart(front);
        let s = with_commas(front);
        let comma = s + seq![','];
        assert(comma.drop_last() =~= s);
        assert(comma.last() == ',');
        assert(fields(comma) == front.push(Seq::empty()));
        fields_of_longer_text(comma, last);
        assert(front.push(Seq::empty()).drop_last() =~= front);
        assert(Seq::<char>::empty() + last =~= last);
        assert(front.push(last) =~= list);
    }
}

proof fn value_of_digits(s: Seq<char>)
    requires
        forall|i: int| 0 <= i < s.len() ==> '0' <= #[trigger] s[i] <= '9',
    ensures
        worth(s) >= 0,
        worth(s) <= u64::MAX ==> digits_value(s) == Ok::<nat, NumberError>(worth(s) as nat),
        worth(s) > u64::MAX ==> digits_value(s) == Err::<nat, NumberError>(NumberError::TooLarge),
    decreases s.len(),
{
    if s.len() > 0 {
        let front = s.drop_last();
        assert forall|i: int| 0 <= i < front.len() implies '0' <= #[trigger] front[i] <= '9' by {
            assert(front[i] == s[i]);
        }
        value_of_digits(front);
        assert('0' <= s[s.len() - 1] <= '9');
    }
}

/// A number is what its digits are worth, with or without a plus sign before
/// them, and too large where that does not fit in 64 bits.
pub proof fn numbers_are_worth_their_digits(digits: Seq<char>)
    requires
        digits.len() > 0,
        forall|i: int| 0 <= i < digits.len() ==> '0' <= #[trigger] digits[i] <= '9',
    ensures
        worth(digits) >= 0,
        worth(digits) <= u64::MAX ==> number(digits) == Ok::<nat, NumberError>(
            worth(digits) as nat,
        ),
        worth(digits) > u64::MAX ==> number(digits) == Err::<nat, NumberError>(
            NumberError::TooLarge,
        ),
        number(seq!['+'] + digits) == number(digits),
{
    value_of_digits(digits);
    assert('0' <= digits[0] <= '9');
    assert((seq!['+'] + digits).drop_first() =~= digits);
}

/// A text is no number where something else than a digit stands behind digits
/// that fit in 64 bits, or where nothing stands behind the sign.
pub proof fn other_characters_make_no_number(digits: Seq<char>, other: char, rest: Seq<char>)
    requires
        forall|i: int| 0 <= i < digits.len() ==> '0' <= #[trigger] digits[i] <= '9',
        worth(digits) <= u64::MAX,
        !('0' <= other <= '9'),
        other == '+' ==> digits.len() > 0,
    ensures
        number(digits + seq![other] + rest) == Err::<nat, NumberError>(NumberError::InvalidDigit),
        number(seq!['+'] + (digits + seq![other] + rest)) == Err::<nat, NumberError>(
            NumberError::InvalidDigit,
        ),
        number(Seq::empty()) == Err::<nat, NumberError>(NumberError::InvalidDigit),
        number(seq!['+']) == Err::<nat, NumberError>(NumberError::InvalidDigit),
{
    let s = digits + seq![other] + rest;
    let upto = digits.push(other);
    value_of_digits(digits);
    assert(upto.drop_last() =~= digits);
    assert(s.take(upto.len() as int) =~= upto);
    error_stays(s, upto.len() as int);
    assert((seq!['+'] + s).drop_first() =~= s);
    if digits.len() > 0 {
        assert('0' <= digits[0] <= '9');
        assert(s[0] == digits[0]);
    } else {
        assert(s[0] == other);
    }
    assert(seq!['+'].drop_first() =~= Seq::empty());
}

/// Numbers that are printed with commas between them, each with any white space
/// around it, are read back as they were.
pub proof fn number_lists_read_back(
    millis: Seq<nat>,
    before: Seq<Seq<char>>,
    after: Seq<Seq<char>>,
    list: Seq<Seq<char>>,
)
    requires
        millis.len() > 0,
        list.len() == millis.len(),
        before.len() == millis.len(),
        after.len() == millis.len(),
        forall|i: int| 0 <= i < millis.len() ==> #[trigger] millis[i] <= u64::MAX,
        forall|i: int, k: int|
            0 <= i < before.len() && 0 <= k < before[i].len() ==> is_white(
                #[trigger] before[i][k],
            ),
        forall|i: int, k: int|
            0 <= i < after.len() && 0 <= k < after[i].len() ==> is_white(#[trigger] after[i][k]),
        forall|i: int|
            0 <= i < list.len() ==> #[trigger] list[i] == before[i] + decimal(millis[i]) + after[i],
    ensures
        numbers(fields(with_commas(list))) == Ok::<Seq<nat>, NumberError>(millis),
{
    assert forall|i: int| 0 <= i < list.len() implies !(#[trigger] list[i]).contains(',') by {
        decimals_are_worth_their_number(millis[i]);
        let field = list[i];
        let digits = decimal(millis[i]);
        assert(field == before[i] + digits + after[i]);
        if field.contains(',') {
            let k = choose|k: int| 0 <= k < field.len() && field[k] == ',';
            if k < before[i].len() {
                assert(field[k] == before[i][k]);
            } else if k < before[i].len() + digits.len() {
                assert(field[k] == digits[k - before[i].len()]);
            } else {
                assert(field[k] == after[i][k - before[i].len() - digits.len()]);
            }
        }
    }
    commas_tell_fields_apart(list);
    assert forall|i: int| 0 <= i < list.len() implies number(trim(#[trigger] list[i])) == Ok::<
        nat,
        NumberError,
    >(millis[i]) && trim(list[i]).len() > 0 by {
        let digits = decimal(millis[i]);
        assert(list[i] == before[i] + digits + after[i]);
        assert(millis[i] <= u64::MAX);
        decimals_are_worth_their_number(millis[i]);
        assert('0' <= digits[0] <= '9');
        assert('0' <= digits[digits.len() - 1] <= '9');
        trimming_leaves_what_stands_between(before[i], digits, after[i]);
        number_reads_back_decimal(millis[i]);
    }
    numbers_of_fields(list, millis);
}

proof fn numbers_of_fields(list: Seq<Seq<char>>, millis: Seq<nat>)
    requires
        list.len() == millis.len(),
        forall|i: int|
            0 <= i < list.len() ==> number(trim(#[trigger] list[i])) == Ok::<nat, NumberError>(
                millis[i],
            ) && trim(list[i]).len() > 0,
    ensures
        numbers(list) == Ok::<Seq<nat>, NumberError>(millis),
    decreases list.len(),
{
    if list.len() == 0 {
        assert(millis =~= Seq::empty());
    } else {
        let front = list.drop_last();
        assert forall|i: int| 0 <= i < front.len() implies number(trim(#[trigger] front[i])) == Ok::<
            nat,
            NumberError,
        >(millis.drop_last()[i]) && trim(front[i]).len() > 0 by {
            assert(front[i] == list[i]);
        }
        numbers_of_fields(front, millis.drop_last());
        assert(number(trim(list[list.len() - 1])) == Ok::<nat, NumberError>(
            millis[millis.len() - 1],
        ));
        assert(millis.drop_last().push(millis.last()) =~= millis);
    }
}

/// A blank field is skipped, wherever it stands.
pub proof fn blank_fields_are_skipped(
    front: Seq<Seq<char>>,
    blank: Seq<char>,
    rest: Seq<Seq<char>>,
)
    requires
        forall|i: int| 0 <= i < blank.len() ==> is_white(#[trigger] blank[i]),
    ensures
        numbers(front + seq![blank] + rest) == numbers(front + rest),
    decreases rest.len(),
{
    if rest.len() == 0 {
        trimming_leaves_what_stands_between(blank, Seq::empty(), Seq::empty());
        assert(blank + Seq::<char>::empty() + Seq::<char>::empty() =~= blank);
        assert(front + rest =~= front);
        assert((front + seq![blank] + rest).drop_last() =~= front);
        assert((front + seq![blank] + rest).last() == blank);
    } else {
        blank_fields_are_skipped(front, blank, rest.drop_last());
        assert((front + seq![blank] + rest).drop_last() =~= front + seq![blank]
            + rest.drop_last());
        assert((front + rest).drop_last() =~= front + rest.drop_last());
        assert((front + seq![blank] + rest).last() == (front + rest).last());
    }
}

/// The first field that is no number decides the error, whatever stands behind
/// it.
pub proof fn first_faulty_field_decides(
    front: Seq<Seq<char>>,
    field: Seq<char>,
    rest: Seq<Seq<char>>,
    e: NumberError,
)
    requires
        numbers(front) is Ok,
        trim(field).len() > 0,
        number(trim(field)) == Err::<nat, NumberError>(e),
    ensures
        numbers(front + seq![field] + rest) == Err::<Seq<nat>, NumberError>(e),
    decreases rest.len(),
{
    let list = front + seq![field] + rest;
    if rest.len() == 0 {
        assert(list.drop_last() =~= front);
        assert(list.last() == field);
    } else {
        first_faulty_field_decides(front, field, rest.drop_last(), e);
        assert(list.drop_last() =~= front + seq![field] + rest.drop_last());
    }
}

/// Printing a number and reading it gives the number back.
pub proof fn number_reads_back_decimal(n: nat)
    requires
        n <= u64::MAX,
    ensures
        number(decimal(n)) == Ok::<nat, NumberError>(n),
{
    digits_of_decimal(n);
    decimal_starts_with_digit(n);
}

/// Different numbers print differently.
pub proof fn signed_decimals_differ(a: int, b: int)
    requires
        -u64::MAX <= a <= u64::MAX,
        -u64::MAX <= b <= u64::MAX,
        signed_decimal(a) == signed_decimal(b),
    ensures
        a == b,
{
    reveal_strlit("-");
    let x = if a < 0 { -a } else { a } as nat;
    let y = if b < 0 { -b } else { b } as nat;
    number_reads_back_decimal(x);
    number_reads_back_decimal(y);
    decimal_starts_with_digit(x);
    decimal_starts_with_digit(y);
    assert(signed_decimal(a)[0] == signed_decimal(b)[0]);
    assert((a < 0) == (b < 0));
    if a < 0 {
        assert(("-"@ + decimal(x)).skip(1) =~= decimal(x));
        assert(("-"@ + decimal(y)).skip(1) =~= decimal(y));
    }
    assert(decimal(x) == decimal(y));
}

proof fn decimal_starts_with_digit(n: nat)
    ensures
        decimal(n).len() > 0,
        is_digit(decimal(n)[0]),
    decreases n,
{
    if n >= 10 {
        decimal_starts_with_digit(n / 10);
    }
}

proof fn digits_of_decimal(n: nat)
    requires
        n <= u64::MAX,
    ensures
        digits_value(decimal(n)) == Ok::<nat, NumberError>(n),
    decreases n,
{
    reveal_with_fuel(digits_value, 2);
    let s = decimal(n);
    if n < 10 {
        assert(s.drop_last() =~= Seq::empty());
        assert(s.last() == digit_char(n));
    } else {
        digits_of_decimal(n / 10);
        assert(s.drop_last() =~= decimal(n / 10));
        assert(s.last() == digit_char(n % 10));
    }
}

proof fn trim_end_of_tail(s: Seq<char>, end: int)
    requires
        0 <= end <= s.len(),
        forall|i: int| end <= i < s.len() ==> is_white(#[trigger] s[i]),
        end > 0 ==> !is_white(s[end - 1]),
    ensures
        trim_end(s) == s.take(end),
    decreases s.len(),
{
    if s.len() > end {
        assert(is_white(s[s.len() - 1]));
        assert forall|i: int| end <= i < s.drop_last().len() implies is_white(
            #[trigger] s.drop_last()[i],
        ) by {
            assert(s[i] == s.drop_last()[i]);
        }
        trim_end_of_tail(s.drop_last(), end);
        assert(s.drop_last().take(end) =~= s.take(end));
    } else {
        assert(s.take(end) =~= s);
    }
}

proof fn trim_is_subrange(s: Seq<char>, start: int, end: int)
    requires
        0 <= start <= end <= s.len(),
        forall|i: int| 0 <= i < start ==> is_white(#[trigger] s[i]),
        forall|i: int| end <= i < s.len() ==> is_white(#[trigger] s[i]),
        start < end ==> !is_white(s[start]) && !is_white(s[end - 1]),
        start == end ==> end == s.len(),
    ensures
        trim(s) == s.subrange(start, end),
    decreases start,
{
    if start > 0 {
        let tail = s.drop_first();
        assert(is_white(s[0]));
        assert forall|i: int| 0 <= i < start - 1 implies is_white(#[trigger] tail[i]) by {
            assert(tail[i] == s[i + 1]);
        }
        assert forall|i: int| end - 1 <= i < tail.len() implies is_white(#[trigger] tail[i]) by {
            assert(tail[i] == s[i + 1]);
        }
        trim_is_subrange(tail, start - 1, end - 1);
        assert(tail.subrange(start - 1, end - 1) =~= s.subrange(start, end));
    } else {
        trim_end_of_tail(s, end);
        assert(s.take(end) =~= s.subrange(0, end));
    }
}

fn white(c: char) -> (b: bool)
    ensures
        b == is_white(c),
{
    let n: u32 = c as u32;
    (0x9 <= n && n <= 0xd) || n == 0x20 || n == 0x85 || n == 0xa0 || n == 0x1680 || (0x2000 <= n
        && n <= 0x200a) || n == 0x2028 || n == 0x2029 || n == 0x202f || n == 0x205f || n == 0x3000
}

/// The ends of what is left of `s[from..to]` without the white space around it.
fn trim_bounds(s: &Vec<char>, from: usize, to: usize) -> (r: (usize, usize))
    requires
        from <= to <= s.len(),
    ensures
        from <= r.0 <= r.1 <= to,
        s@.subrange(r.0 as int, r.1 as int) == trim(s@.subrange(from as int, to as int)),
{
    let ghost field = s@.subrange(from as int, to as int);
    let mut start: usize = from;
    while start < to && white(s[start])
        invariant
            from <= start <= to <= s.len(),
            field == s@.subrange(from as int, to as int),
            forall|i: int| 0 <= i < start - from ==> is_white(#[trigger] field[i]),
        decreases to - start,
    {
        start = start + 1;
    }
    let mut end: usize = to;
    while start < end && white(s[end - 1])
        invariant
            from <= start <= end <= to <= s.len(),
            field == s@.subrange(from as int, to as int),
            start < to ==> !is_white(s@[start as int]),
            forall|i: int| end - from <= i < field.len() ==> is_white(#[trigger] field[i]),
        decreases end - start,
    {
        end = end - 1;
    }
    proof {
        if start < to {
            assert(field[start - from] == s@[start as int]);
        }
        if start < end {
            assert(field[end - 1 - from] == s@[end - 1]);
        }
        trim_is_subrange(field, start - from, end - from);
        assert(field.subrange(start - from, end - from) =~= s@.subrange(start as int, end as int));
    }
    (start, end)
}

/// Read the number in `s[from..to]`.
fn read_number(s: &Vec<char>, from: usize, to: usize) -> (r: Result<u64, NumberError>)
    requires
        from <= to <= s.len(),
    ensures
        match r {
            Ok(n) => number(s@.subrange(from as int, to as int)) == Ok::<nat, NumberError>(
                n as nat,
            ),
            Err(e) => number(s@.subrange(from as int, to as int)) == Err::<nat, NumberError>(e),
        },
{
    let ghost text = s@.subrange(from as int, to as int);
    let first: usize = if from < to && s[from] == '+' {
        from + 1
    } else {
        from
    };
    let ghost digits = s@.subrange(first as int, to as int);
    proof {
        if first > from {
            assert(digits =~= text.drop_first());
        } else {
            assert(digits =~= text);
        }
    }
    if first == to {
        return Err(NumberError::InvalidDigit);
    }
    let mut value: u64 = 0;
    let mut i: usize = first;
    assert(s@.subrange(first as int, first as int) =~= Seq::empty());
    while i < to
        invariant
            first <= i <= to <= s.len(),
            text == s@.subrange(from as int, to as int),
            digits == s@.subrange(first as int, to as int),
            number(text) == digits_value(digits),
            digits_value(s@.subrange(first as int, i as int)) == Ok::<nat, NumberError>(
                value as nat,
            ),
        decreases to - i,
    {
        let c: char = s[i];
        let ghost upto = s@.subrange(first as int, i + 1);
        assert(upto.drop_last() =~= s@.subrange(first as int, i as int));
        assert(upto.last() == c);
        if !('0' <= c && c <= '9') {
            proof {
                assert(digits.take(i + 1 - first) =~= upto);
                error_stays(digits, i + 1 - first);
            }
            return Err(NumberError::InvalidDigit);
        }
        let d: u64 = (c as u32 - '0' as u32) as u64;
        if value > 0xffff_ffff_ffff_ffff / 10 || value * 10 > 0xffff_ffff_ffff_ffff - d {
            proof {
                assert(digits.take(i + 1 - first) =~= upto);
                error_stays(digits, i + 1 - first);
            }
            return Err(NumberError::TooLarge);
        }
        value = value * 10 + d;
        i = i + 1;
    }
    Ok(value)
}

proof fn error_stays(s: Seq<char>, n: int)
    requires
        0 <= n <= s.len(),
        digits_value(s.take(n)) is Err,
    ensures
        digits_value(s) == digits_value(s.take(n)),
    decreases s.len(),
{
    if n == s.len() {
        assert(s.take(n) =~= s);
    } else {
        assert(s.drop_last().take(n) =~= s.take(n));
        error_stays(s.drop_last(), n);
    }
}

/// The delays of a list of milliseconds, in nanoseconds.
pub open spec fn delays(millis: Seq<nat>) -> Seq<nat> {
    millis.map_values(|m: nat| Duration::of_millis(m))
}

/// The lengths of durations.
pub open spec fn lengths(durations: Seq<Duration>) -> Seq<nat> {
    durations.map_values(|d: Duration| d.nanos as nat)
}

proof fn fields_nonempty(s: Seq<char>)
    ensures
        fields(s).len() > 0,
    decreases s.len(),
{
    if s.len() > 0 {
        fields_nonempty(s.drop_last());
    }
}

proof fn numbers_error_stays(s: Seq<char>, n: int)
    requires
        0 <= n < s.len(),
        s[n] == ',',
        numbers(fields(s.take(n))) is Err,
    ensures
        numbers(fields(s)) == numbers(fields(s.take(n))),
        numbers(fields(s).drop_last()) == numbers(fields(s.take(n))),
        fields(s).len() > 0,
    decreases s.len(),
{
    let front = s.drop_last();
    let before = fields(front);
    fields_nonempty(front);
    if n == s.len() - 1 {
        assert(front =~= s.take(n));
        assert(fields(s).drop_last() =~= before);
    } else {
        assert(front.take(n) =~= s.take(n));
        numbers_error_stays(front, n);
        if s.last() == ',' {
            assert(fields(s).drop_last() =~= before);
        } else {
            assert(fields(s).drop_last() =~= before.drop_last());
        }
    }
}

impl Config {
    /// The shared secret, with the current name preferred.
    pub fn resolved_shared_secret(&self) -> (r: Result<&str, WorkerError>)
        ensures
            match (self.shared_secret, self.legacy_shared_secret) {
                (Some(s), _) => r matches Ok(t) && t@ == s@,
                (None, Some(s)) => r matches Ok(t) && t@ == s@,
                (None, None) => r matches Err(WorkerError::Config(m)) && m@
                    == "SHARED_SECRET (or DATA_API_SHARED_SECRET) must be set"@,
            },
    {
        match &self.shared_secret {
            Some(s) => Ok(s.as_str()),
            None => match &self.legacy_shared_secret {
                Some(s) => Ok(s.as_str()),
                None => Err(
                    WorkerError::Config(
                        "SHARED_SECRET (or DATA_API_SHARED_SECRET) must be set".to_owned(),
                    ),
                ),
            },
        }
    }

    fn backoff_error(e: NumberError) -> (w: WorkerError)
        ensures
            w matches WorkerError::Config(m) && m@ == "RETRY_BACKOFF_MS: "@ + number_error_text(e),
    {
        let text = match e {
            NumberError::InvalidDigit => "invalid digit found in string",
            NumberError::TooLarge => "number too large to fit in target type",
        };
        WorkerError::Config("RETRY_BACKOFF_MS: ".to_owned().concat(text))
    }

    /// The retry delays.
    pub fn retry_backoffs(&self) -> (r: Result<Vec<Duration>, WorkerError>)
        ensures
            numbers(fields(self.retry_backoff_ms@)) matches Ok(millis) ==> (r matches Ok(v)
                && v@.len() == millis.len() && forall|i: int|
                0 <= i < v@.len() ==> (#[trigger] v@[i]).nanos == millis[i] * 1_000_000),
            numbers(fields(self.retry_backoff_ms@)) matches Err(e) ==> (r matches Err(
                WorkerError::Config(m),
            ) && m@ == "RETRY_BACKOFF_MS: "@ + match e {
                NumberError::InvalidDigit => "invalid digit found in string"@,
                NumberError::TooLarge => "number too large to fit in target type"@,
            }),
            match numbers(fields(self.retry_backoff_ms@)) {
                Ok(millis) => r matches Ok(v) && lengths(v@) == delays(millis),
                Err(e) => r matches Err(WorkerError::Config(m)) && m@ == "RETRY_BACKOFF_MS: "@
                    + number_error_text(e),
            },
    {
        let ghost text = self.retry_backoff_ms@;
        let s = to_chars(self.retry_backoff_ms.as_str());
        let mut v: Vec<Duration> = Vec::new();
        let ghost mut millis: Seq<nat> = Seq::empty();
        let mut start: usize = 0;
        let mut i: usize = 0;
        proof {
            assert(text.take(0) =~= Seq::empty());
            assert(fields(text.take(0)).drop_last() =~= Seq::empty());
            assert(text.subrange(0, 0) =~= Seq::empty());
            assert(lengths(v@) =~= delays(millis));
        }
        loop
            invariant
                s@ == text,
                text == self.retry_backoff_ms@,
                start <= i <= s.len(),
                fields(text.take(i as int)).len() > 0,
                fields(text.take(i as int)).last() == text.subrange(start as int, i as int),
                numbers(fields(text.take(i as int)).drop_last()) == Ok::<Seq<nat>, NumberError>(
                    millis,
                ),
                lengths(v@) == delays(millis),
            decreases s.len() - i,
        {
            let at_end: bool = i == s.len();
            if at_end || s[i] == ',' {
                let ghost list = fields(text.take(i as int));
                let (from, to) = trim_bounds(&s, start, i);
                if from < to {
                    match read_number(&s, from, to) {
                        Ok(n) => {
                            let ghost old_v = v@;
                            v.push(Duration::from_millis(n));
                            proof {
                                let old_millis = millis;
                                millis = millis.push(n as nat);
                                assert(lengths(v@) =~= lengths(old_v).push(v@.last().nanos as nat));
                                assert(delays(millis) =~= delays(old_millis).push(
                                    Duration::of_millis(n as nat),
                                ));
                            }
                        },
                        Err(e) => {
                            proof {
                                assert(numbers(list) == Err::<Seq<nat>, NumberError>(e));
                                if at_end {
                                    assert(text.take(i as int) =~= text);
                                } else {
                                    numbers_error_stays(text, i as int);
                                }
                            }
                            return Err(Self::backoff_error(e));
                        },
                    }
                }
                assert(numbers(list) == Ok::<Seq<nat>, NumberError>(millis));
                if at_end {
                    assert(text.take(i as int) =~= text);
                    assert(lengths(v@).len() == delays(millis).len());
                    assert forall|k: int| 0 <= k < v@.len() implies (#[trigger] v@[k]).nanos
                        == millis[k] * 1_000_000 by {
                        assert(lengths(v@)[k] == delays(millis)[k]);
                    }
                    return Ok(v);
                }
                proof {
                    let upto = text.take(i + 1);
                    assert(upto.drop_last() =~= text.take(i as int));
                    assert(upto.last() == ',');
                    assert(fields(upto).drop_last() =~= list);
                    assert(text.subrange(i + 1, i + 1) =~= Seq::empty());
                }
                start = i + 1;
            } else {
                proof {
                    let upto = text.take(i + 1);
                    let list = fields(text.take(i as int));
                    assert(upto.drop_last() =~= text.take(i as int));
                    assert(upto.last() == text[i as int]);
                    assert(fields(upto).drop_last() =~= list.drop_last());
                    assert(text.subrange(start as int, i + 1) =~= text.subrange(
                        start as int,
                        i as int,
                    ).push(text[i as int]));
                }
            }
            i = i + 1;
        }
    }

    /// The time between two REST reconciliations.
    pub fn poll_interval(&self) -> (d: Duration)
        ensures
            d.nanos == Duration::of_secs(self.poll_interval_secs as nat),
            d.nanos == self.poll_interval_secs * 1_000_000_000,
    {
        Duration::from_secs(self.poll_interval_secs)
    }
}

} // verus!
