//! The timestamp a record carries: a calendar date and time of day with an
//! explicit UTC offset, held as plain fields, together with its canonical
//! RFC 2822 text form (as in `Thu, 01 Jan 2024 00:00:00 +0000`) and the
//! parser that inverts it.

use vstd::prelude::*;

verus! {

/// A calendar timestamp with an explicit UTC offset.
///
/// The weekday is stored, not derived from the date: the text form names it
/// explicitly, and this type does no calendar arithmetic.
#[derive(Clone, Copy, Debug, PartialEq, Eq, Structural)]
pub struct Timestamp {
    /// Day of the week, `0` for Monday through `6` for Sunday.
    pub weekday: u8,
    /// Day of the month, `1` through `31`.
    pub day: u8,
    /// Month, `1` for January through `12` for December.
    pub month: u8,
    /// Year, `0` through `9999`.
    pub year: u16,
    /// Hour of the day, `0` through `23`.
    pub hour: u8,
    /// Minute, `0` through `59`.
    pub minute: u8,
    /// Second, `0` through `59`.
    pub second: u8,
    /// True when the UTC offset is negative (west of UTC).
    pub offset_negative: bool,
    /// Hours part of the UTC offset, `0` through `23`.
    pub offset_hours: u8,
    /// Minutes part of the UTC offset, `0` through `59`.
    pub offset_minutes: u8,
}

/// The ASCII digit for a value `0` through `9`.
pub open spec fn ascii_digit(n: int) -> u8 {
    (48 + n) as u8
}

/// Two ASCII digits, zero padded, for a value `0` through `99`.
pub open spec fn two_digits(n: int) -> Seq<u8> {
    seq![ascii_digit(n / 10), ascii_digit(n % 10)]
}

/// Four ASCII digits, zero padded, for a value `0` through `9999`.
pub open spec fn four_digits(n: int) -> Seq<u8> {
    seq![
        ascii_digit(n / 1000),
        ascii_digit(n / 100 % 10),
        ascii_digit(n / 10 % 10),
        ascii_digit(n % 10),
    ]
}

/// The three-letter English name of a weekday, `0` for Monday.
pub open spec fn weekday_name(w: int) -> Seq<u8> {
    if w == 0 {
        seq![77, 111, 110]
    } else if w == 1 {
        seq![84, 117, 101]
    } else if w == 2 {
        seq![87, 101, 100]
    } else if w == 3 {
        seq![84, 104, 117]
    } else if w == 4 {
        seq![70, 114, 105]
    } else if w == 5 {
        seq![83, 97, 116]
    } else {
        seq![83, 117, 110]
    }
}

/// The three-letter English name of a month, `1` for January.
pub open spec fn month_name(m: int) -> Seq<u8> {
    if m == 1 {
        seq![74, 97, 110]
    } else if m == 2 {
        seq![70, 101, 98]
    } else if m == 3 {
        seq![77, 97, 114]
    } else if m == 4 {
        seq![65, 112, 114]
    } else if m == 5 {
        seq![77, 97, 121]
    } else if m == 6 {
        seq![74, 117, 110]
    } else if m == 7 {
        seq![74, 117, 108]
    } else if m == 8 {
        seq![65, 117, 103]
    } else if m == 9 {
        seq![83, 101, 112]
    } else if m == 10 {
        seq![79, 99, 116]
    } else if m == 11 {
        seq![78, 111, 118]
    } else {
        seq![68, 101, 99]
    }
}

/// The canonical RFC 2822 rendering of a timestamp, as a byte sequence:
/// `Www, DD Mmm YYYY HH:MM:SS +hhmm` (31 bytes, sign `-` for a negative
/// offset).
#[verifier::opaque]
pub open spec fn rfc2822_bytes(t: Timestamp) -> Seq<u8> {
    weekday_name(t.weekday as int) + seq![44] + seq![32]
        + two_digits(t.day as int) + seq![32]
        + month_name(t.month as int) + seq![32]
        + four_digits(t.year as int) + seq![32]
        + two_digits(t.hour as int) + seq![58]
        + two_digits(t.minute as int) + seq![58]
        + two_digits(t.second as int) + seq![32]
        + seq![if t.offset_negative { 45 } else { 43 }]
        + two_digits(t.offset_hours as int)
        + two_digits(t.offset_minutes as int)
}

/// Whether some well-formed timestamp renders to exactly these bytes.
pub open spec fn is_rfc2822(s: Seq<u8>) -> bool {
    exists|t: Timestamp| t.wf() && rfc2822_bytes(t) == s
}

fn push_two_digits(out: &mut Vec<u8>, n: u8)
    requires
        n < 100,
    ensures
        final(out)@ == old(out)@ + two_digits(n as int),
{
    out.push(48 + n / 10);
    out.push(48 + n % 10);
    proof {
        assert(out@ =~= old(out)@ + two_digits(n as int));
    }
}

fn push_four_digits(out: &mut Vec<u8>, n: u16)
    requires
        n <= 9999,
    ensures
        final(out)@ == old(out)@ + four_digits(n as int),
{
    out.push((48 + n / 1000) as u8);
    out.push((48 + n / 100 % 10) as u8);
    out.push((48 + n / 10 % 10) as u8);
    out.push((48 + n % 10) as u8);
    proof {
        assert(out@ =~= old(out)@ + four_digits(n as int));
    }
}

fn push_weekday(out: &mut Vec<u8>, w: u8)
    requires
        w < 7,
    ensures
        final(out)@ == old(out)@ + weekday_name(w as int),
{
    if w == 0 {
        out.push(77);
        out.push(111);
        out.push(110);
    } else if w == 1 {
        out.push(84);
        out.push(117);
        out.push(101);
    } else if w == 2 {
        out.push(87);
        out.push(101);
        out.push(100);
    } else if w == 3 {
        out.push(84);
        out.push(104);
        out.push(117);
    } else if w == 4 {
        out.push(70);
        out.push(114);
        out.push(105);
    } else if w == 5 {
        out.push(83);
        out.push(97);
        out.push(116);
    } else {
        out.push(83);
        out.push(117);
        out.push(110);
    }
    proof {
        assert(out@ =~= old(out)@ + weekday_name(w as int));
    }
}

fn push_month(out: &mut Vec<u8>, m: u8)
    requires
        1 <= m <= 12,
    ensures
        final(out)@ == old(out)@ + month_name(m as int),
{
    if m == 1 {
        out.push(74);
        out.push(97);
        out.push(110);
    } else if m == 2 {
        out.push(70);
        out.push(101);
        out.push(98);
    } else if m == 3 {
        out.push(77);
        out.push(97);
        out.push(114);
    } else if m == 4 {
        out.push(65);
        out.push(112);
        out.push(114);
    } else if m == 5 {
        out.push(77);
        out.push(97);
        out.push(121);
    } else if m == 6 {
        out.push(74);
        out.push(117);
        out.push(110);
    } else if m == 7 {
        out.push(74);
        out.push(117);
        out.push(108);
    } else if m == 8 {
        out.push(65);
        out.push(117);
        out.push(103);
    } else if m == 9 {
        out.push(83);
        out.push(101);
        out.push(112);
    } else if m == 10 {
        out.push(79);
        out.push(99);
        out.push(116);
    } else if m == 11 {
        out.push(78);
        out.push(111);
        out.push(118);
    } else {
        out.push(68);
        out.push(101);
        out.push(99);
    }
    proof {
        assert(out@ =~= old(out)@ + month_name(m as int));
    }
}

/// Whether a byte is an ASCII decimal digit.
pub open spec fn is_digit_byte(b: u8) -> bool {
    48 <= b && b <= 57
}

/// The value of an ASCII decimal digit byte.
pub open spec fn digit_val(b: u8) -> int {
    b - 48
}

/// Where each field of a well-formed timestamp stands in its rendering.
pub(crate) proof fn lemma_rfc2822_layout(t: Timestamp)
    requires
        t.wf(),
    ensures
        rfc2822_bytes(t).len() == 31,
        rfc2822_bytes(t).subrange(0, 3) == weekday_name(t.weekday as int),
        rfc2822_bytes(t)[3] == 44u8,
        rfc2822_bytes(t)[4] == 32u8,
        rfc2822_bytes(t)[5] == ascii_digit(t.day as int / 10),
        rfc2822_bytes(t)[6] == ascii_digit(t.day as int % 10),
        rfc2822_bytes(t)[7] == 32u8,
        rfc2822_bytes(t).subrange(8, 11) == month_name(t.month as int),
        rfc2822_bytes(t)[11] == 32u8,
        rfc2822_bytes(t)[12] == ascii_digit(t.year as int / 1000),
        rfc2822_bytes(t)[13] == ascii_digit(t.year as int / 100 % 10),
        rfc2822_bytes(t)[14] == ascii_digit(t.year as int / 10 % 10),
        rfc2822_bytes(t)[15] == ascii_digit(t.year as int % 10),
        rfc2822_bytes(t)[16] == 32u8,
        rfc2822_bytes(t)[17] == ascii_digit(t.hour as int / 10),
        rfc2822_bytes(t)[18] == ascii_digit(t.hour as int % 10),
        rfc2822_bytes(t)[19] == 58u8,
        rfc2822_bytes(t)[20] == ascii_digit(t.minute as int / 10),
        rfc2822_bytes(t)[21] == ascii_digit(t.minute as int % 10),
        rfc2822_bytes(t)[22] == 58u8,
        rfc2822_bytes(t)[23] == ascii_digit(t.second as int / 10),
        rfc2822_bytes(t)[24] == ascii_digit(t.second as int % 10),
        rfc2822_bytes(t)[25] == 32u8,
        rfc2822_bytes(t)[26] == (if t.offset_negative { 45u8 } else { 43u8 }),
        rfc2822_bytes(t)[27] == ascii_digit(t.offset_hours as int / 10),
        rfc2822_bytes(t)[28] == ascii_digit(t.offset_hours as int % 10),
        rfc2822_bytes(t)[29] == ascii_digit(t.offset_minutes as int / 10),
        rfc2822_bytes(t)[30] == ascii_digit(t.offset_minutes as int % 10),
{
    reveal(rfc2822_bytes);
    assert(weekday_name(t.weekday as int).len() == 3);
    assert(month_name(t.month as int).len() == 3);
    assert(rfc2822_bytes(t).subrange(0, 3) =~= weekday_name(t.weekday as int));
    assert(rfc2822_bytes(t).subrange(8, 11) =~= month_name(t.month as int));
}

/// No byte of a well-formed timestamp's rendering is a line feed or a
/// carriage return, and the rendering is never empty.
#[verifier::rlimit(50)]
pub(crate) proof fn lemma_rfc2822_no_breaks(t: Timestamp)
    requires
        t.wf(),
    ensures
        rfc2822_bytes(t).len() == 31,
        forall|i: int|
            0 <= i < rfc2822_bytes(t).len() ==> rfc2822_bytes(t)[i] != 10u8 && rfc2822_bytes(t)[i]
                != 13u8,
{
    lemma_rfc2822_layout(t);
    assert forall|i: int|
        0 <= i < rfc2822_bytes(t).len() implies rfc2822_bytes(t)[i] != 10u8 && rfc2822_bytes(t)[i]
        != 13u8 by {
        if i < 3 {
            assert(rfc2822_bytes(t)[i] == weekday_name(t.weekday as int).subrange(0, 3)[i]);
            assert(weekday_name(t.weekday as int)[i] != 10u8 && weekday_name(t.weekday as int)[i]
                != 13u8);
        } else if 8 <= i < 11 {
            assert(rfc2822_bytes(t)[i] == month_name(t.month as int).subrange(0, 3)[i - 8]);
            assert(month_name(t.month as int)[i - 8] != 10u8 && month_name(t.month as int)[i - 8]
                != 13u8);
        } else {
            // every other byte is a digit (48 through 57) or punctuation
            assert(48 <= ascii_digit(t.day as int / 10) <= 57);
            assert(48 <= ascii_digit(t.day as int % 10) <= 57);
            assert(48 <= ascii_digit(t.year as int / 1000) <= 57);
            assert(48 <= ascii_digit(t.year as int / 100 % 10) <= 57);
            assert(48 <= ascii_digit(t.year as int / 10 % 10) <= 57);
            assert(48 <= ascii_digit(t.year as int % 10) <= 57);
            assert(48 <= ascii_digit(t.hour as int / 10) <= 57);
            assert(48 <= ascii_digit(t.hour as int % 10) <= 57);
            assert(48 <= ascii_digit(t.minute as int / 10) <= 57);
            assert(48 <= ascii_digit(t.minute as int % 10) <= 57);
            assert(48 <= ascii_digit(t.second as int / 10) <= 57);
            assert(48 <= ascii_digit(t.second as int % 10) <= 57);
            assert(48 <= ascii_digit(t.offset_hours as int / 10) <= 57);
            assert(48 <= ascii_digit(t.offset_hours as int % 10) <= 57);
            assert(48 <= ascii_digit(t.offset_minutes as int / 10) <= 57);
            assert(48 <= ascii_digit(t.offset_minutes as int % 10) <= 57);
        }
    }
}

/// Two well-formed timestamps with the same RFC 2822 rendering are equal:
/// the canonical text form carries the whole of the timestamp.
pub proof fn lemma_rfc2822_injective(t1: Timestamp, t2: Timestamp)
    requires
        t1.wf(),
        t2.wf(),
        rfc2822_bytes(t1) == rfc2822_bytes(t2),
    ensures
        t1 == t2,
{
    lemma_rfc2822_layout(t1);
    lemma_rfc2822_layout(t2);
    assert(weekday_name(t1.weekday as int) == weekday_name(t2.weekday as int));
    assert(t1.weekday == t2.weekday) by {
        let n1 = weekday_name(t1.weekday as int);
        let n2 = weekday_name(t2.weekday as int);
        assert(n1[0] == n2[0] && n1[1] == n2[1] && n1[2] == n2[2]);
    }
    assert(month_name(t1.month as int) == month_name(t2.month as int));
    assert(t1.month == t2.month) by {
        let n1 = month_name(t1.month as int);
        let n2 = month_name(t2.month as int);
        assert(n1[0] == n2[0] && n1[1] == n2[1] && n1[2] == n2[2]);
    }
    assert(t1.day == t2.day) by {
        assert(t1.day as int / 10 == t2.day as int / 10 && t1.day as int % 10 == t2.day as int
            % 10);
    }
    assert(t1.year == t2.year) by {
        assert(t1.year as int / 1000 == t2.year as int / 1000);
        assert(t1.year as int / 100 % 10 == t2.year as int / 100 % 10);
        assert(t1.year as int / 10 % 10 == t2.year as int / 10 % 10);
        assert(t1.year as int % 10 == t2.year as int % 10);
    }
    assert(t1.hour == t2.hour && t1.minute == t2.minute && t1.second == t2.second);
    assert(t1.offset_negative == t2.offset_negative);
    assert(t1.offset_hours == t2.offset_hours && t1.offset_minutes == t2.offset_minutes);
}

/// What holds of any line that some well-formed timestamp renders to.
#[verifier::rlimit(50)]
proof fn lemma_rfc2822_line_facts(s: Seq<u8>)
    requires
        is_rfc2822(s),
    ensures
        s.len() == 31,
        exists|w: int| 0 <= w < 7 && weekday_name(w) == seq![s[0], s[1], s[2]],
        exists|m: int| 1 <= m <= 12 && month_name(m) == seq![s[8], s[9], s[10]],
        s[3] == 44u8 && s[4] == 32u8 && s[7] == 32u8 && s[11] == 32u8 && s[16] == 32u8 && s[19]
            == 58u8 && s[22] == 58u8 && s[25] == 32u8,
        s[26] == 43u8 || s[26] == 45u8,
        is_digit_byte(s[5]) && is_digit_byte(s[6]) && is_digit_byte(s[12]) && is_digit_byte(s[13])
            && is_digit_byte(s[14]) && is_digit_byte(s[15]) && is_digit_byte(s[17])
            && is_digit_byte(s[18]) && is_digit_byte(s[20]) && is_digit_byte(s[21])
            && is_digit_byte(s[23]) && is_digit_byte(s[24]) && is_digit_byte(s[27])
            && is_digit_byte(s[28]) && is_digit_byte(s[29]) && is_digit_byte(s[30]),
        1 <= digit_val(s[5]) * 10 + digit_val(s[6]) <= 31,
        digit_val(s[17]) * 10 + digit_val(s[18]) < 24,
        digit_val(s[20]) * 10 + digit_val(s[21]) < 60,
        digit_val(s[23]) * 10 + digit_val(s[24]) < 60,
        digit_val(s[27]) * 10 + digit_val(s[28]) < 24,
        digit_val(s[29]) * 10 + digit_val(s[30]) < 60,
{
    let t = choose|t: Timestamp| t.wf() && rfc2822_bytes(t) == s;
    lemma_rfc2822_layout(t);
    assert(rfc2822_bytes(t).subrange(0, 3) =~= seq![s[0], s[1], s[2]]);
    assert(weekday_name(t.weekday as int) == seq![s[0], s[1], s[2]]);
    assert(rfc2822_bytes(t).subrange(8, 11) =~= seq![s[8], s[9], s[10]]);
    assert(month_name(t.month as int) == seq![s[8], s[9], s[10]]);
    assert(digit_val(s[5]) == t.day as int / 10 && digit_val(s[6]) == t.day as int % 10);
    assert(digit_val(s[17]) == t.hour as int / 10 && digit_val(s[18]) == t.hour as int % 10);
    assert(digit_val(s[20]) == t.minute as int / 10 && digit_val(s[21]) == t.minute as int % 10);
    assert(digit_val(s[23]) == t.second as int / 10 && digit_val(s[24]) == t.second as int % 10);
    assert(digit_val(s[27]) == t.offset_hours as int / 10 && digit_val(s[28]) == t.offset_hours as int % 10);
    assert(digit_val(s[29]) == t.offset_minutes as int / 10 && digit_val(s[30]) == t.offset_minutes as int % 10);
}

/// How a two-digit value splits back into its digits.
proof fn lemma_two_digit_split(n: int, a: int, b: int)
    requires
        0 <= a <= 9,
        0 <= b <= 9,
        n == a * 10 + b,
    ensures
        n / 10 == a,
        n % 10 == b,
{
}

/// How a four-digit value splits back into its digits.
proof fn lemma_four_digit_split(n: int, a: int, b: int, c: int, d: int)
    requires
        0 <= a <= 9,
        0 <= b <= 9,
        0 <= c <= 9,
        0 <= d <= 9,
        n == a * 1000 + b * 100 + c * 10 + d,
    ensures
        n / 1000 == a,
        n / 100 % 10 == b,
        n / 10 % 10 == c,
        n % 10 == d,
{
    assert(n / 100 == a * 10 + b);
    assert(n / 10 == a * 100 + b * 10 + c);
}

/// A digit byte survives the round trip through its value.
proof fn lemma_digit_byte_roundtrip(b: u8)
    requires
        is_digit_byte(b),
    ensures
        ascii_digit(digit_val(b)) == b,
{
}

/// A well-formed timestamp whose fields were read off a 31-byte line renders
/// back to exactly that line.
#[verifier::rlimit(100)]
proof fn lemma_render_from_bytes(t: Timestamp, s: Seq<u8>)
    requires
        t.wf(),
        s.len() == 31,
        weekday_name(t.weekday as int) == seq![s[0], s[1], s[2]],
        month_name(t.month as int) == seq![s[8], s[9], s[10]],
        s[3] == 44u8 && s[4] == 32u8 && s[7] == 32u8 && s[11] == 32u8 && s[16] == 32u8 && s[19]
            == 58u8 && s[22] == 58u8 && s[25] == 32u8,
        s[26] == (if t.offset_negative { 45u8 } else { 43u8 }),
        is_digit_byte(s[5]) && is_digit_byte(s[6]) && is_digit_byte(s[12]) && is_digit_byte(s[13])
            && is_digit_byte(s[14]) && is_digit_byte(s[15]) && is_digit_byte(s[17])
            && is_digit_byte(s[18]) && is_digit_byte(s[20]) && is_digit_byte(s[21])
            && is_digit_byte(s[23]) && is_digit_byte(s[24]) && is_digit_byte(s[27])
            && is_digit_byte(s[28]) && is_digit_byte(s[29]) && is_digit_byte(s[30]),
        t.day == digit_val(s[5]) * 10 + digit_val(s[6]),
        t.year == digit_val(s[12]) * 1000 + digit_val(s[13]) * 100 + digit_val(s[14]) * 10
            + digit_val(s[15]),
        t.hour == digit_val(s[17]) * 10 + digit_val(s[18]),
        t.minute == digit_val(s[20]) * 10 + digit_val(s[21]),
        t.second == digit_val(s[23]) * 10 + digit_val(s[24]),
        t.offset_hours == digit_val(s[27]) * 10 + digit_val(s[28]),
        t.offset_minutes == digit_val(s[29]) * 10 + digit_val(s[30]),
    ensures
        rfc2822_bytes(t) == s,
{
    lemma_two_digit_split(t.day as int, digit_val(s[5]), digit_val(s[6]));
    lemma_four_digit_split(
        t.year as int,
        digit_val(s[12]),
        digit_val(s[13]),
        digit_val(s[14]),
        digit_val(s[15]),
    );
    lemma_two_digit_split(t.hour as int, digit_val(s[17]), digit_val(s[18]));
    lemma_two_digit_split(t.minute as int, digit_val(s[20]), digit_val(s[21]));
    lemma_two_digit_split(t.second as int, digit_val(s[23]), digit_val(s[24]));
    lemma_two_digit_split(t.offset_hours as int, digit_val(s[27]), digit_val(s[28]));
    lemma_two_digit_split(t.offset_minutes as int, digit_val(s[29]), digit_val(s[30]));
    lemma_digit_byte_roundtrip(s[5]);
    lemma_digit_byte_roundtrip(s[6]);
    lemma_digit_byte_roundtrip(s[12]);
    lemma_digit_byte_roundtrip(s[13]);
    lemma_digit_byte_roundtrip(s[14]);
    lemma_digit_byte_roundtrip(s[15]);
    lemma_digit_byte_roundtrip(s[17]);
    lemma_digit_byte_roundtrip(s[18]);
    lemma_digit_byte_roundtrip(s[20]);
    lemma_digit_byte_roundtrip(s[21]);
    lemma_digit_byte_roundtrip(s[23]);
    lemma_digit_byte_roundtrip(s[24]);
    lemma_digit_byte_roundtrip(s[27]);
    lemma_digit_byte_roundtrip(s[28]);
    lemma_digit_byte_roundtrip(s[29]);
    lemma_digit_byte_roundtrip(s[30]);
    assert(two_digits(t.day as int) =~= seq![s[5], s[6]]);
    assert(four_digits(t.year as int) =~= seq![s[12], s[13], s[14], s[15]]);
    assert(two_digits(t.hour as int) =~= seq![s[17], s[18]]);
    assert(two_digits(t.minute as int) =~= seq![s[20], s[21]]);
    assert(two_digits(t.second as int) =~= seq![s[23], s[24]]);
    assert(two_digits(t.offset_hours as int) =~= seq![s[27], s[28]]);
    assert(two_digits(t.offset_minutes as int) =~= seq![s[29], s[30]]);
    reveal(rfc2822_bytes);
    assert(rfc2822_bytes(t) =~= s);
}

/// Looks a three-byte weekday name up, `0` for Monday.
fn weekday_code(a: u8, b: u8, c: u8) -> (r: Option<u8>)
    ensures
        match r {
            Some(w) => w < 7 && weekday_name(w as int) == seq![a, b, c],
            None => forall|w: int| 0 <= w < 7 ==> weekday_name(w) != seq![a, b, c],
        },
{
    let r: Option<u8> = if a == 77 && b == 111 && c == 110 {
        Some(0)
    } else if a == 84 && b == 117 && c == 101 {
        Some(1)
    } else if a == 87 && b == 101 && c == 100 {
        Some(2)
    } else if a == 84 && b == 104 && c == 117 {
        Some(3)
    } else if a == 70 && b == 114 && c == 105 {
        Some(4)
    } else if a == 83 && b == 97 && c == 116 {
        Some(5)
    } else if a == 83 && b == 117 && c == 110 {
        Some(6)
    } else {
        None
    };
    proof {
        match r {
            Some(w) => {
                assert(weekday_name(w as int) =~= seq![a, b, c]);
            },
            None => {
                assert forall|w: int| 0 <= w < 7 implies weekday_name(w) != seq![a, b, c] by {
                    if weekday_name(w) == seq![a, b, c] {
                        assert(weekday_name(w)[0] == a && weekday_name(w)[1] == b && weekday_name(
                            w,
                        )[2] == c);
                    }
                }
            },
        }
    }
    r
}

/// Looks a three-byte month name up, `1` for January.
fn month_code(a: u8, b: u8, c: u8) -> (r: Option<u8>)
    ensures
        match r {
            Some(m) => 1 <= m <= 12 && month_name(m as int) == seq![a, b, c],
            None => forall|m: int| 1 <= m <= 12 ==> month_name(m) != seq![a, b, c],
        },
{
    let r: Option<u8> = if a == 74 && b == 97 && c == 110 {
        Some(1)
    } else if a == 70 && b == 101 && c == 98 {
        Some(2)
    } else if a == 77 && b == 97 && c == 114 {
        Some(3)
    } else if a == 65 && b == 112 && c == 114 {
        Some(4)
    } else if a == 77 && b == 97 && c == 121 {
        Some(5)
    } else if a == 74 && b == 117 && c == 110 {
        Some(6)
    } else if a == 74 && b == 117 && c == 108 {
        Some(7)
    } else if a == 65 && b == 117 && c == 103 {
        Some(8)
    } else if a == 83 && b == 101 && c == 112 {
        Some(9)
    } else if a == 79 && b == 99 && c == 116 {
        Some(10)
    } else if a == 78 && b == 111 && c == 118 {
        Some(11)
    } else if a == 68 && b == 101 && c == 99 {
        Some(12)
    } else {
        None
    };
    proof {
        match r {
            Some(m) => {
                assert(month_name(m as int) =~= seq![a, b, c]);
            },
            None => {
                assert forall|m: int| 1 <= m <= 12 implies month_name(m) != seq![a, b, c] by {
                    if month_name(m) == seq![a, b, c] {
                        assert(month_name(m)[0] == a && month_name(m)[1] == b && month_name(m)[2]
                            == c);
                    }
                }
            },
        }
    }
    r
}

impl Timestamp {
    /// Whether every field lies in the range the text form can carry.
    pub open spec fn wf(self) -> bool {
        &&& self.weekday < 7
        &&& 1 <= self.day <= 31
        &&& 1 <= self.month <= 12
        &&& self.year <= 9999
        &&& self.hour < 24
        &&& self.minute < 60
        &&& self.second < 60
        &&& self.offset_hours < 24
        &&& self.offset_minutes < 60
    }

    /// Runtime check of `wf`.
    pub fn check_well_formed(&self) -> (b: bool)
        ensures
            b == self.wf(),
    {
        self.weekday < 7 && 1 <= self.day && self.day <= 31 && 1 <= self.month && self.month <= 12
            && self.year <= 9999 && self.hour < 24 && self.minute < 60 && self.second < 60
            && self.offset_hours < 24 && self.offset_minutes < 60
    }

    /// Renders the timestamp in its canonical RFC 2822 text form.
    pub fn to_rfc2822(&self) -> (line: Vec<u8>)
        requires
            self.wf(),
        ensures
            line@ == rfc2822_bytes(*self),
    {
        let mut line: Vec<u8> = Vec::new();
        push_weekday(&mut line, self.weekday);
        line.push(44);
        line.push(32);
        push_two_digits(&mut line, self.day);
        line.push(32);
        push_month(&mut line, self.month);
        line.push(32);
        push_four_digits(&mut line, self.year);
        line.push(32);
        push_two_digits(&mut line, self.hour);
        line.push(58);
        push_two_digits(&mut line, self.minute);
        line.push(58);
        push_two_digits(&mut line, self.second);
        line.push(32);
        if self.offset_negative {
            line.push(45);
        } else {
            line.push(43);
        }
        push_two_digits(&mut line, self.offset_hours);
        push_two_digits(&mut line, self.offset_minutes);
        proof {
            reveal(rfc2822_bytes);
            assert(line@ =~= rfc2822_bytes(*self));
        }
        line
    }

    /// Parses the canonical RFC 2822 text form back into a timestamp.
    ///
    /// Succeeds exactly on the lines that `to_rfc2822` produces: `Some` is
    /// returned if and only if some well-formed timestamp renders to these
    /// bytes, and it is that timestamp.
    #[verifier::rlimit(50)]
    pub fn parse_rfc2822(line: &Vec<u8>) -> (r: Option<Timestamp>)
        ensures
            match r {
                Some(t) => t.wf() && rfc2822_bytes(t) == line@,
                None => !is_rfc2822(line@),
            },
    {
        if line.len() != 31 {
            proof {
                if is_rfc2822(line@) {
                    lemma_rfc2822_line_facts(line@);
                }
            }
            return None;
        }
        let weekday = match weekday_code(line[0], line[1], line[2]) {
            Some(w) => w,
            None => {
                proof {
                    if is_rfc2822(line@) {
                        lemma_rfc2822_line_facts(line@);
                    }
                }
                return None;
            },
        };
        let month = match month_code(line[8], line[9], line[10]) {
            Some(m) => m,
            None => {
                proof {
                    if is_rfc2822(line@) {
                        lemma_rfc2822_line_facts(line@);
                    }
                }
                return None;
            },
        };
        let punctuation_ok = line[3] == 44 && line[4] == 32 && line[7] == 32 && line[11] == 32
            && line[16] == 32 && line[19] == 58 && line[22] == 58 && line[25] == 32 && (line[26]
            == 43 || line[26] == 45);
        let digits_ok = punctuation_ok && digit_pair_ok(line[5], line[6]) && digit_pair_ok(
            line[12],
            line[13],
        ) && digit_pair_ok(line[14], line[15]) && digit_pair_ok(line[17], line[18])
            && digit_pair_ok(line[20], line[21]) && digit_pair_ok(line[23], line[24])
            && digit_pair_ok(line[27], line[28]) && digit_pair_ok(line[29], line[30]);
        if !digits_ok {
            proof {
                if is_rfc2822(line@) {
                    lemma_rfc2822_line_facts(line@);
                }
            }
            return None;
        }
        let day = (line[5] - 48) * 10 + (line[6] - 48);
        let year = (line[12] - 48) as u16 * 1000 + (line[13] - 48) as u16 * 100 + (line[14]
            - 48) as u16 * 10 + (line[15] - 48) as u16;
        let hour = (line[17] - 48) * 10 + (line[18] - 48);
        let minute = (line[20] - 48) * 10 + (line[21] - 48);
        let second = (line[23] - 48) * 10 + (line[24] - 48);
        let offset_hours = (line[27] - 48) * 10 + (line[28] - 48);
        let offset_minutes = (line[29] - 48) * 10 + (line[30] - 48);
        let in_range = 1 <= day && day <= 31 && hour < 24 && minute < 60 && second < 60
            && offset_hours < 24 && offset_minutes < 60;
        if !in_range {
            proof {
                if is_rfc2822(line@) {
                    lemma_rfc2822_line_facts(line@);
                }
            }
            return None;
        }
        let t = Timestamp {
            weekday,
            day,
            month,
            year,
            hour,
            minute,
            second,
            offset_negative: line[26] == 45,
            offset_hours,
            offset_minutes,
        };
        proof {
            lemma_render_from_bytes(t, line@);
        }
        Some(t)
    }
}

/// Whether both bytes are ASCII decimal digits.
fn digit_pair_ok(a: u8, b: u8) -> (r: bool)
    ensures
        r == (is_digit_byte(a) && is_digit_byte(b)),
{
    48 <= a && a <= 57 && 48 <= b && b <= 57
}

} // verus!
