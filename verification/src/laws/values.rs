//! What holds of the texts of values.
use vstd::arithmetic::power::{lemma_pow1, lemma_pow_adds, pow};
use vstd::prelude::*;
use crate::outside::{in_written_years, nanos_in, seconds_in, timestamp_text};
use crate::scalar::{BigDecimal, BigInt, Bytes, Hex, Timestamp};
use crate::text::{
    clickhouse_array, comma_separated, decimal, digit_char, hex_char, lower_hex, plain_decimal,
    psql_array, signed_be, signed_decimal, unsigned_be, zeros,
};
use crate::value::{all_texts_fit, database_texts, ToDatabaseValue};

verus! {

// Integers.

/// Each character is a decimal digit.
pub open spec fn all_digits(text: Seq<char>) -> bool {
    forall|i: int| 0 <= i < text.len() ==> '0' as int <= #[trigger] text[i] as int <= '9' as int
}

/// The number that digits stand for in base ten.
pub open spec fn read_digits(text: Seq<char>) -> int
    decreases text.len(),
{
    if text.len() == 0 {
        0
    } else {
        read_digits(text.drop_last()) * 10 + (text.last() as int - '0' as int)
    }
}

/// A text is read as this integer: digits without needless zeros, after a minus sign where the
/// integer is negative.
pub open spec fn reads_as(text: Seq<char>, n: int) -> bool {
    if n < 0 {
        text.len() > 1 && text[0] == '-' && text[1] != '0' && all_digits(text.skip(1))
            && read_digits(text.skip(1)) == -n
    } else {
        text.len() > 0 && (text[0] == '0' ==> text.len() == 1) && all_digits(text) && read_digits(
            text,
        ) == n
    }
}

/// No text is read as two integers.
pub proof fn law_text_is_of_one_integer(text: Seq<char>, a: int, b: int)
    requires
        reads_as(text, a),
        reads_as(text, b),
    ensures
        a == b,
{
}

/// No integer is read from two texts.
pub proof fn law_integer_has_one_text(a: Seq<char>, b: Seq<char>, n: int)
    requires
        reads_as(a, n),
        reads_as(b, n),
    ensures
        a == b,
{
    if n < 0 {
        lemma_same_digits(a.skip(1), b.skip(1));
        assert(a =~= seq!['-'] + a.skip(1));
        assert(b =~= seq!['-'] + b.skip(1));
    } else {
        lemma_same_digits(a, b);
    }
}

proof fn lemma_digits_bound(text: Seq<char>)
    requires
        all_digits(text),
    ensures
        read_digits(text) >= 0,
        text.len() > 0 && text[0] != '0' ==> read_digits(text) > 0,
    decreases text.len(),
{
    if text.len() > 0 {
        let rest = text.drop_last();
        assert forall|i: int| 0 <= i < rest.len() implies '0' as int <= #[trigger] rest[i] as int
            <= '9' as int by {
            assert(rest[i] == text[i]);
        }
        assert('0' as int <= text[text.len() - 1] as int <= '9' as int);
        lemma_digits_bound(rest);
        if text.len() > 1 {
            assert(rest[0] == text[0]);
        }
    }
}

proof fn lemma_same_digits(a: Seq<char>, b: Seq<char>)
    requires
        all_digits(a),
        all_digits(b),
        a.len() > 0,
        b.len() > 0,
        a[0] == '0' ==> a.len() == 1,
        b[0] == '0' ==> b.len() == 1,
        read_digits(a) == read_digits(b),
    ensures
        a == b,
    decreases a.len(),
{
    let x = a.drop_last();
    let y = b.drop_last();
    assert forall|i: int| 0 <= i < x.len() implies '0' as int <= #[trigger] x[i] as int
        <= '9' as int by {
        assert(x[i] == a[i]);
    }
    assert forall|i: int| 0 <= i < y.len() implies '0' as int <= #[trigger] y[i] as int
        <= '9' as int by {
        assert(y[i] == b[i]);
    }
    assert('0' as int <= a[a.len() - 1] as int <= '9' as int);
    assert('0' as int <= b[b.len() - 1] as int <= '9' as int);
    lemma_digits_bound(x);
    lemma_digits_bound(y);
    assert(read_digits(x) == read_digits(y));
    assert(a.last() == b.last());
    if x.len() == 0 || y.len() == 0 {
        assert(x.len() == 0 && y.len() == 0);
        assert(a =~= b);
    } else {
        lemma_same_digits(x, y);
        assert(a =~= x.push(a.last()));
        assert(b =~= y.push(b.last()));
    }
}

proof fn lemma_decimal(n: nat)
    ensures
        decimal(n).len() > 0,
        all_digits(decimal(n)),
        read_digits(decimal(n)) == n,
        decimal(n)[0] == '0' ==> n == 0,
        n == 0 ==> decimal(n).len() == 1,
    decreases n,
{
    let text = decimal(n);
    if n < 10 {
        assert(text.drop_last() =~= Seq::<char>::empty());
        assert(read_digits(text.drop_last()) == 0);
        assert(text.last() as int == 0x30 + n);
    } else {
        lemma_decimal(n / 10);
        assert(text.drop_last() =~= decimal(n / 10));
        assert(text.last() as int == 0x30 + n % 10);
        assert(text[0] == decimal(n / 10)[0]);
    }
}

proof fn lemma_signed_decimal(n: int)
    ensures
        reads_as(signed_decimal(n), n),
{
    if n < 0 {
        let digits = decimal((-n) as nat);
        lemma_decimal((-n) as nat);
        assert(signed_decimal(n).skip(1) =~= digits);
        assert(signed_decimal(n)[1] == digits[0]);
    } else {
        lemma_decimal(n as nat);
    }
}

/// A signed integer of any width is written so that it can be read again.
pub proof fn law_signed_integers_are_written(a: i8, b: i16, c: i32, d: i64)
    ensures
        reads_as(a.database_text(), a as int),
        reads_as(b.database_text(), b as int),
        reads_as(c.database_text(), c as int),
        reads_as(d.database_text(), d as int),
        a.text_fits() && b.text_fits() && c.text_fits() && d.text_fits(),
{
    lemma_signed_decimal(a as int);
    lemma_signed_decimal(b as int);
    lemma_signed_decimal(c as int);
    lemma_signed_decimal(d as int);
}

/// An unsigned integer of any width is written so that it can be read again.
pub proof fn law_unsigned_integers_are_written(a: u8, b: u16, c: u32, d: u64)
    ensures
        reads_as(a.database_text(), a as int),
        reads_as(b.database_text(), b as int),
        reads_as(c.database_text(), c as int),
        reads_as(d.database_text(), d as int),
        a.text_fits() && b.text_fits() && c.text_fits() && d.text_fits(),
{
    lemma_decimal(a as nat);
    lemma_decimal(b as nat);
    lemma_decimal(c as nat);
    lemma_decimal(d as nat);
}

/// An integer of any size is written so that it can be read again, by value and by reference.
pub proof fn law_big_integers_are_written(n: BigInt)
    ensures
        reads_as(n.database_text(), n@),
        reads_as((&n).database_text(), n@),
        16 * n.signed_bytes_be@.len() <= isize::MAX ==> n.text_fits() && (&n).text_fits(),
{
    lemma_signed_decimal(n@);
}

/// The bytes of an integer are in two's complement: the first byte has the sign, and each byte
/// behind it makes the integer 256 times as large and adds the byte.
pub proof fn law_big_integers_are_twos_complement(a: BigInt, b: BigInt, byte: u8)
    requires
        b.signed_bytes_be@ == a.signed_bytes_be@.push(byte),
    ensures
        a.signed_bytes_be@.len() == 0 ==> a@ == 0,
        a.signed_bytes_be@.len() == 0 ==> b@ == if byte < 128 {
            byte as int
        } else {
            byte - 256
        },
        a.signed_bytes_be@.len() > 0 ==> b@ == 256 * a@ + byte,
{
    let bytes = a.signed_bytes_be@;
    let more = b.signed_bytes_be@;
    assert(more.drop_last() =~= bytes);
    lemma_pow1(256);
    lemma_pow_adds(256, bytes.len(), 1);
    assert(unsigned_be(more) == unsigned_be(bytes) * 256 + byte);
    assert(pow(256, more.len()) == pow(256, bytes.len()) * 256);
    if bytes.len() == 0 {
        assert(unsigned_be(bytes) == 0);
    } else {
        assert(more[0] == bytes[0]);
    }
}

// Decimal numbers.

/// A text is read as `n * 10^exp`, where `n` is not negative: the digits of `n` and as many zeros as
/// the power says; or, where the power is negative, as many digits behind a point, and no needless
/// zeros in front of it.
pub open spec fn reads_as_fraction(text: Seq<char>, n: int, exp: int) -> bool {
    if exp >= 0 {
        let end = text.len() - exp;
        &&& end > 0
        &&& reads_as(text.take(end), n)
        &&& forall|i: int| end <= i < text.len() ==> #[trigger] text[i] == '0'
    } else {
        let point = text.len() + exp - 1;
        &&& point > 0
        &&& text[point] == '.'
        &&& all_digits(text.remove(point))
        &&& read_digits(text.remove(point)) == n
        &&& text[0] == '0' ==> point == 1
    }
}

/// A text is read as `n * 10^exp`, with a minus sign in front of a negative number.
pub open spec fn reads_as_decimal(text: Seq<char>, n: int, exp: int) -> bool {
    if n < 0 {
        text.len() > 0 && text[0] == '-' && reads_as_fraction(text.skip(1), -n, exp)
    } else {
        reads_as_fraction(text, n, exp)
    }
}

proof fn lemma_leading_zeros(count: nat, digits: Seq<char>)
    requires
        all_digits(digits),
    ensures
        all_digits(zeros(count) + digits),
        read_digits(zeros(count) + digits) == read_digits(digits),
    decreases digits.len(), count,
{
    let text = zeros(count) + digits;
    if digits.len() > 0 {
        let rest = digits.drop_last();
        assert forall|i: int| 0 <= i < rest.len() implies '0' as int <= #[trigger] rest[i] as int
            <= '9' as int by {
            assert(rest[i] == digits[i]);
        }
        lemma_leading_zeros(count, rest);
        assert(text.drop_last() =~= zeros(count) + rest);
        assert(text.last() == digits.last());
    } else if count > 0 {
        lemma_leading_zeros((count - 1) as nat, digits);
        assert(text.drop_last() =~= zeros((count - 1) as nat) + digits);
    } else {
        assert(text =~= digits);
    }
}

proof fn lemma_plain_decimal(n: int, exp: int)
    ensures
        reads_as_decimal(plain_decimal(n, exp), n, exp),
{
    let digits = decimal(
        if n < 0 {
            (-n) as nat
        } else {
            n as nat
        },
    );
    let all = plain_decimal(n, exp);
    let text = if n < 0 {
        all.skip(1)
    } else {
        all
    };
    let size = if n < 0 {
        -n
    } else {
        n
    };
    lemma_decimal(size as nat);
    if exp >= 0 {
        assert(text =~= digits + zeros(exp as nat));
        assert(text.take(text.len() - exp) =~= digits);
    } else if -exp < digits.len() {
        let point = digits.len() + exp;
        assert(text =~= digits.take(point) + seq!['.'] + digits.skip(point));
        assert(text.len() + exp - 1 == point);
        assert(text.remove(point) =~= digits);
        assert(text[0] == digits[0]);
    } else {
        let count = (-exp - digits.len()) as nat;
        assert(text =~= seq!['0', '.'] + zeros(count) + digits);
        assert(text.len() + exp - 1 == 1);
        lemma_leading_zeros(count + 1, digits);
        assert(text.remove(1) =~= zeros(count + 1) + digits);
    }
}

/// A decimal number is written so that it can be read again, with all of its digits, by value and by
/// reference.
pub proof fn law_big_decimals_are_written(d: BigDecimal)
    ensures
        reads_as_decimal(d.database_text(), d.digits@, d.exp as int),
        reads_as_decimal((&d).database_text(), d.digits@, d.exp as int),
        16 * d.digits.signed_bytes_be@.len() <= isize::MAX && -isize::MAX <= 2 * d.exp <= isize::MAX
            ==> d.text_fits() && (&d).text_fits(),
{
    lemma_plain_decimal(d.digits@, d.exp as int);
}

// Truth values and texts.

/// A truth value is written as a word.
pub proof fn law_truth_values_are_words(value: bool)
    ensures
        value ==> value.database_text() == seq!['t', 'r', 'u', 'e'],
        !value ==> value.database_text() == seq!['f', 'a', 'l', 's', 'e'],
        value.text_fits(),
{
    reveal_strlit("true");
    reveal_strlit("false");
    assert(value ==> value.database_text() =~= seq!['t', 'r', 'u', 'e']);
    assert(!value ==> value.database_text() =~= seq!['f', 'a', 'l', 's', 'e']);
}

/// A text is written as it is.
pub proof fn law_texts_stay_as_they_are(text: &str, string: String)
    ensures
        text.database_text() == text@,
        string.database_text() == string@,
        (&string).database_text() == string@,
        text.text_fits() && string.text_fits() && (&string).text_fits(),
{
}

// Bytes.

/// The number that a lower case hexadecimal digit stands for; of other characters, -1.
pub open spec fn read_hex_digit(c: char) -> int {
    if '0' as int <= c as int <= '9' as int {
        c as int - '0' as int
    } else if 'a' as int <= c as int <= 'f' as int {
        c as int - 'a' as int + 10
    } else {
        -1
    }
}

/// The two characters of a text that stand for the byte at a place are read as that byte.
pub open spec fn reads_as_byte(text: Seq<char>, bytes: Seq<u8>, i: int) -> bool {
    &&& read_hex_digit(text[2 * i]) >= 0
    &&& read_hex_digit(text[2 * i + 1]) >= 0
    &&& 16 * read_hex_digit(text[2 * i]) + read_hex_digit(text[2 * i + 1]) == bytes[i]
}

/// A text is read as these bytes: two lower case hexadecimal digits for each, the higher one first.
pub open spec fn reads_as_bytes(text: Seq<char>, bytes: Seq<u8>) -> bool {
    &&& text.len() == 2 * bytes.len()
    &&& forall|i: int| 0 <= i < bytes.len() ==> #[trigger] reads_as_byte(text, bytes, i)
}

proof fn lemma_lower_hex(bytes: Seq<u8>)
    ensures
        reads_as_bytes(lower_hex(bytes), bytes),
{
    assert forall|i: int| 0 <= i < bytes.len() implies #[trigger] reads_as_byte(
        lower_hex(bytes),
        bytes,
        i,
    ) by {
        lemma_hex_pair(bytes, i);
    }
}

proof fn lemma_hex_pair(bytes: Seq<u8>, i: int)
    requires
        0 <= i < bytes.len(),
    ensures
        read_hex_digit(lower_hex(bytes)[2 * i]) == bytes[i] as int / 16,
        read_hex_digit(lower_hex(bytes)[2 * i + 1]) == bytes[i] as int % 16,
{
    let high = 2 * i;
    let low = 2 * i + 1;
    assert(high % 2 == 0 && high / 2 == i);
    assert(low % 2 == 1 && low / 2 == i);
    assert(lower_hex(bytes)[high] == hex_char(bytes[i] as int / 16));
    assert(lower_hex(bytes)[low] == hex_char(bytes[i] as int % 16));
    lemma_hex_char(bytes[i] as int / 16);
    lemma_hex_char(bytes[i] as int % 16);
}

proof fn lemma_hex_char(digit: int)
    requires
        0 <= digit < 16,
    ensures
        read_hex_digit(hex_char(digit)) == digit,
{
    if digit < 10 {
        assert(hex_char(digit) == digit_char(digit));
    }
}

/// Bytes are written so that they can be read again, by value and by reference.
pub proof fn law_bytes_are_written(bytes: Vec<u8>)
    ensures
        reads_as_bytes(bytes.database_text(), bytes@),
        reads_as_bytes((&bytes).database_text(), bytes@),
        2 * bytes@.len() <= isize::MAX ==> bytes.text_fits() && (&bytes).text_fits(),
{
    lemma_lower_hex(bytes@);
}

/// Bytes that are marked for it are written in the same way, whatever holds them.
pub proof fn law_hex_is_written<B: Bytes>(hex: Hex<B>)
    ensures
        reads_as_bytes(hex.database_text(), hex.0.bytes()),
        reads_as_bytes((&hex).database_text(), hex.0.bytes()),
        4 * hex.0.bytes().len() <= isize::MAX ==> hex.text_fits() && (&hex).text_fits(),
{
    lemma_lower_hex(hex.0.bytes());
}

/// No text is read as two lists of bytes.
pub proof fn law_text_is_of_one_list_of_bytes(text: Seq<char>, a: Seq<u8>, b: Seq<u8>)
    requires
        reads_as_bytes(text, a),
        reads_as_bytes(text, b),
    ensures
        a == b,
{
    assert forall|i: int| 0 <= i < a.len() implies a[i] == b[i] by {
        assert(reads_as_byte(text, a, i) && reads_as_byte(text, b, i));
    }
    assert(a =~= b);
}

/// What holds bytes holds just these; a text holds those of its encoding.
pub proof fn law_bytes_are_those_held<const N: usize>(
    vec: Vec<u8>,
    slice: &[u8],
    array: [u8; N],
    boxed: Box<[u8]>,
    counted: std::rc::Rc<[u8]>,
    shared: std::sync::Arc<[u8]>,
    either: std::borrow::Cow<'_, [u8]>,
    text: &str,
    string: String,
)
    ensures
        Bytes::bytes(&vec) == vec@,
        Bytes::bytes(&slice) == slice@,
        Bytes::bytes(&array) == array@,
        Bytes::bytes(&boxed) == (*boxed)@,
        Bytes::bytes(&counted) == (*counted)@,
        Bytes::bytes(&shared) == (*shared)@,
        Bytes::bytes(&either) == either@,
        Bytes::bytes(&text) == vstd::utf8::encode_utf8(text@),
        Bytes::bytes(&string) == vstd::utf8::encode_utf8(string@),
        Bytes::bytes(&&vec) == vec@,
        Bytes::bytes(&&array) == array@,
        Bytes::bytes(&&string) == vstd::utf8::encode_utf8(string@),
{
}

// Times.

/// A time is written as its own crate writes these seconds and nanoseconds, by value and by
/// reference.
pub proof fn law_times_are_written(time: Timestamp)
    ensures
        time.database_text() == timestamp_text(time.seconds, time.nanos),
        (&time).database_text() == time.database_text(),
        time.text_fits() && (&time).text_fits(),
{
}

/// From the text of a time in the years from 0 to 9999 the time can be read again, whether it was
/// written by value or by reference.
pub proof fn law_times_are_read_again(time: Timestamp, text: String, text_of_ref: String)
    requires
        in_written_years(time.seconds, time.nanos),
        call_ensures(<Timestamp as ToDatabaseValue>::to_value, (time,), text),
        call_ensures(<&Timestamp as ToDatabaseValue>::to_value, (&time,), text_of_ref),
    ensures
        seconds_in(text@) == time.seconds,
        nanos_in(text@) == time.nanos,
        seconds_in(text_of_ref@) == time.seconds,
        nanos_in(text_of_ref@) == time.nanos,
{
}

/// Different times in the years from 0 to 9999 have different texts, by value and by reference.
pub proof fn law_times_have_their_own_texts(
    a: Timestamp,
    b: Timestamp,
    a_text: String,
    b_text: String,
)
    requires
        in_written_years(a.seconds, a.nanos),
        in_written_years(b.seconds, b.nanos),
        a != b,
        call_ensures(<Timestamp as ToDatabaseValue>::to_value, (a,), a_text),
        call_ensures(<Timestamp as ToDatabaseValue>::to_value, (b,), b_text),
    ensures
        a_text@ != b_text@,
        a.database_text() != b.database_text(),
        (&a).database_text() != (&b).database_text(),
{
    assert(a.seconds != b.seconds || a.nanos != b.nanos);
}

// Arrays.

/// Joined texts all stand there, in their order, each behind a comma but for the first: a further
/// one is put behind those that are there.
pub proof fn law_joining_keeps_every_part(parts: Seq<Seq<char>>, part: Seq<char>)
    ensures
        comma_separated(Seq::<Seq<char>>::empty()) == Seq::<char>::empty(),
        parts.len() == 0 ==> comma_separated(parts.push(part)) == part,
        parts.len() > 0 ==> comma_separated(parts.push(part)) == comma_separated(parts) + seq![','] + part,
{
    let more = parts.push(part);
    assert(more.drop_last() =~= parts);
    if parts.len() > 0 {
        assert(comma_separated(more) =~= comma_separated(parts) + seq![','] + part);
    }
}

/// The lengths of texts, added up.
pub open spec fn total_len(parts: Seq<Seq<char>>) -> nat
    decreases parts.len(),
{
    if parts.len() == 0 {
        0
    } else {
        total_len(parts.drop_last()) + parts.last().len()
    }
}

/// Joined texts are as long as all of them together, with one comma less than there are texts.
pub proof fn law_length_of_joined_parts(parts: Seq<Seq<char>>)
    ensures
        comma_separated(parts).len() == total_len(parts) + if parts.len() == 0 {
            0
        } else {
            parts.len() - 1
        },
    decreases parts.len(),
{
    if parts.len() > 0 {
        let rest = parts.drop_last();
        law_length_of_joined_parts(rest);
        law_joining_keeps_every_part(rest, parts.last());
        assert(rest.push(parts.last()) =~= parts);
    }
}

/// An array holds the joined texts of its values: in PostgreSQL between braces and quotes, in
/// ClickHouse between brackets.
pub proof fn law_arrays_hold_the_joined_values(values: Seq<Seq<char>>)
    ensures
        ({
            let psql = psql_array(values);
            let clickhouse = clickhouse_array(values);
            let joined = comma_separated(values);
            &&& psql.len() == joined.len() + 4
            &&& psql.take(2) == seq!['\'', '{']
            &&& psql.skip(psql.len() - 2) == seq!['}', '\'']
            &&& psql.subrange(2, psql.len() - 2) == joined
            &&& clickhouse.len() == joined.len() + 2
            &&& clickhouse.first() == '['
            &&& clickhouse.last() == ']'
            &&& clickhouse.subrange(1, clickhouse.len() - 1) == joined
        }),
{
    let psql = psql_array(values);
    let clickhouse = clickhouse_array(values);
    let joined = comma_separated(values);
    assert(psql.take(2) =~= seq!['\'', '{']);
    assert(psql.skip(psql.len() - 2) =~= seq!['}', '\'']);
    assert(psql.subrange(2, psql.len() - 2) =~= joined);
    assert(clickhouse.subrange(1, clickhouse.len() - 1) =~= joined);
}

/// An array has the text of each of its values, at the value's place.
pub proof fn law_arrays_hold_every_value<T: ToDatabaseValue>(values: Seq<T>, value: T)
    ensures
        database_texts(values).len() == values.len(),
        forall|i: int|
            0 <= i < values.len() ==> #[trigger] database_texts(values)[i]
                == values[i].database_text(),
        database_texts(values.push(value)) == database_texts(values).push(value.database_text()),
        all_texts_fit(values.push(value)) <==> all_texts_fit(values) && value.text_fits(),
{
    assert(database_texts(values.push(value)) =~= database_texts(values).push(
        value.database_text(),
    ));
    let more = values.push(value);
    if all_texts_fit(more) {
        assert forall|i: int| 0 <= i < values.len() implies (#[trigger] values[i]).text_fits() by {
            assert(more[i].text_fits());
        }
        assert(more[values.len() as int].text_fits());
    }
    if all_texts_fit(values) && value.text_fits() {
        assert forall|i: int| 0 <= i < more.len() implies (#[trigger] more[i]).text_fits() by {
            assert(i < values.len() ==> more[i] == values[i]);
        }
    }
}

} // verus!
