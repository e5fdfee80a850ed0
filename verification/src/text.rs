use vstd::arithmetic::power::pow;
use vstd::prelude::*;
use vstd::string::StringExecFns;

verus! {

/// The character of one decimal digit.
pub open spec fn digit_char(digit: int) -> char
    recommends
        0 <= digit < 10,
{
    (0x30 + digit) as char
}

/// A natural number in base ten, without leading zeros.
pub open spec fn decimal(n: nat) -> Seq<char>
    decreases n,
{
    if n < 10 {
        seq![digit_char(n as int)]
    } else {
        decimal(n / 10).push(digit_char((n % 10) as int))
    }
}

/// An integer in base ten, with a minus sign where it is negative.
pub open spec fn signed_decimal(n: int) -> Seq<char> {
    if n < 0 {
        seq!['-'] + decimal((-n) as nat)
    } else {
        decimal(n as nat)
    }
}

/// `count` zeros.
pub open spec fn zeros(count: nat) -> Seq<char> {
    Seq::new(count, |i: int| '0')
}

/// `n * 10^exp` in plain decimal notation: all digits of `n` are kept, and a point stands only in
/// front of a fraction.
pub open spec fn plain_decimal(n: int, exp: int) -> Seq<char> {
    let sign: Seq<char> = if n < 0 {
        seq!['-']
    } else {
        seq![]
    };
    let digits = decimal(if n < 0 {
        (-n) as nat
    } else {
        n as nat
    });
    if exp >= 0 {
        sign + digits + zeros(exp as nat)
    } else if -exp < digits.len() {
        let point = digits.len() + exp;
        sign + digits.take(point) + seq!['.'] + digits.skip(point)
    } else {
        sign + seq!['0', '.'] + zeros((-exp - digits.len()) as nat) + digits
    }
}

/// The number that bytes stand for, the most significant first.
pub open spec fn unsigned_be(bytes: Seq<u8>) -> nat
    decreases bytes.len(),
{
    if bytes.len() == 0 {
        0
    } else {
        unsigned_be(bytes.drop_last()) * 256 + bytes.last() as nat
    }
}

/// The number that bytes stand for in two's complement, the most significant first.
pub open spec fn signed_be(bytes: Seq<u8>) -> int {
    if bytes.len() > 0 && bytes[0] >= 0x80 {
        unsigned_be(bytes) - pow(256, bytes.len())
    } else {
        unsigned_be(bytes) as int
    }
}

/// The character of one lower case hexadecimal digit.
pub open spec fn hex_char(digit: int) -> char
    recommends
        0 <= digit < 16,
{
    if digit < 10 {
        digit_char(digit)
    } else {
        (0x57 + digit) as char
    }
}

/// Bytes in lower case hexadecimal, two characters for each.
pub open spec fn lower_hex(bytes: Seq<u8>) -> Seq<char> {
    Seq::new(
        2 * bytes.len(),
        |i: int|
            hex_char(
                if i % 2 == 0 {
                    bytes[i / 2] as int / 16
                } else {
                    bytes[i / 2] as int % 16
                },
            ),
    )
}

/// Texts one after the other, with a comma between each two.
pub open spec fn comma_separated(parts: Seq<Seq<char>>) -> Seq<char>
    decreases parts.len(),
{
    if parts.len() == 0 {
        seq![]
    } else if parts.len() == 1 {
        parts[0]
    } else {
        comma_separated(parts.drop_last()).push(',') + parts.last()
    }
}

/// The literal of an array in PostgreSQL.
pub open spec fn psql_array(values: Seq<Seq<char>>) -> Seq<char> {
    seq!['\'', '{'] + comma_separated(values) + seq!['}', '\'']
}

/// The literal of an array in ClickHouse.
pub open spec fn clickhouse_array(values: Seq<Seq<char>>) -> Seq<char> {
    seq!['['] + comma_separated(values) + seq![']']
}

fn digit_text(digit: u64) -> (text: &'static str)
    requires
        digit < 10,
    ensures
        text@ == seq![digit_char(digit as int)],
{
    proof {
        reveal_strlit("0");
        reveal_strlit("1");
        reveal_strlit("2");
        reveal_strlit("3");
        reveal_strlit("4");
        reveal_strlit("5");
        reveal_strlit("6");
        reveal_strlit("7");
        reveal_strlit("8");
        reveal_strlit("9");
    }
    match digit {
        0 => "0",
        1 => "1",
        2 => "2",
        3 => "3",
        4 => "4",
        5 => "5",
        6 => "6",
        7 => "7",
        8 => "8",
        _ => "9",
    }
}

fn push_decimal(text: &mut String, n: u64)
    ensures
        final(text)@ == old(text)@ + decimal(n as nat),
    decreases n,
{
    if n >= 10 {
        push_decimal(text, n / 10);
    }
    text.append(digit_text(n % 10));
    proof {
        if n >= 10 {
            assert(decimal(n as nat) == decimal((n / 10) as nat).push(digit_char((n % 10) as int)));
        }
    }
}

/// An unsigned integer in base ten.
pub fn unsigned_text(n: u64) -> (text: String)
    ensures
        text@ == decimal(n as nat),
{
    let mut text = String::new();
    push_decimal(&mut text, n);
    text
}

/// A signed integer in base ten.
pub fn signed_text(n: i64) -> (text: String)
    ensures
        text@ == signed_decimal(n as int),
{
    let mut text = String::new();
    if n < 0 {
        proof {
            reveal_strlit("-");
        }
        text.append("-");
        push_decimal(&mut text, (-(n + 1)) as u64 + 1);
        assert(text@ == seq!['-'] + decimal((-n) as nat));
    } else {
        push_decimal(&mut text, n as u64);
    }
    text
}

/// Joins texts with a comma between each two.
pub fn join_with_commas(parts: &Vec<String>) -> (text: String)
    ensures
        text@ == comma_separated(parts@.map_values(|part: String| part@)),
{
    let ghost views = parts@.map_values(|part: String| part@);
    let mut text = String::new();
    let mut i: usize = 0;
    while i < parts.len()
        invariant
            i <= parts@.len(),
            views == parts@.map_values(|part: String| part@),
            text@ == comma_separated(views.take(i as int)),
        decreases parts@.len() - i,
    {
        let ghost before = views.take(i as int);
        let ghost now = views.take(i + 1);
        if i > 0 {
            text.append(",");
        }
        text.append(parts[i].as_str());
        proof {
            reveal_strlit(",");
            assert(now.drop_last() =~= before);
            assert(now.last() == parts@[i as int]@);
            if i > 0 {
                assert(text@ =~= comma_separated(before).push(',') + now.last());
            } else {
                assert(text@ =~= now[0]);
            }
        }
        i += 1;
    }
    assert(views.take(parts@.len() as int) =~= views);
    text
}

} // verus!
