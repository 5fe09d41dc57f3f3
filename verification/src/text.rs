//! Characters and strings: classification, comparison, decoding and number formatting.
use vstd::prelude::*;
use vstd::string::*;
use vstd::utf8::*;

verus! {

/// The Unicode control codes (general category Cc).
pub open spec fn control(c: char) -> bool {
    (c as u32) < 0x20 || 0x7f <= (c as u32) <= 0x9f
}

/// The characters with the Unicode property `White_Space`.
pub open spec fn white_space(c: char) -> bool {
    let code = c as u32;
    ||| 0x09 <= code <= 0x0d
    ||| code == 0x20 || code == 0x85 || code == 0xa0 || code == 0x1680
    ||| 0x2000 <= code <= 0x200a
    ||| code == 0x2028 || code == 0x2029 || code == 0x202f || code == 0x205f || code == 0x3000
}

/// Some character of `text` is a control code.
pub open spec fn any_control(text: Seq<char>) -> bool {
    exists|i: int| 0 <= i < text.len() && control(#[trigger] text[i])
}

/// Every character of `text` is white space; the empty text is blank.
pub open spec fn blank(text: Seq<char>) -> bool {
    forall|i: int| 0 <= i < text.len() ==> white_space(#[trigger] text[i])
}

pub fn is_control(c: char) -> (result: bool)
    ensures
        result == control(c),
{
    let code: u32 = c as u32;
    code < 0x20 || (0x7f <= code && code <= 0x9f)
}

pub fn is_white_space(c: char) -> (result: bool)
    ensures
        result == white_space(c),
{
    let code: u32 = c as u32;
    (0x09 <= code && code <= 0x0d) || code == 0x20 || code == 0x85 || code == 0xa0 || code == 0x1680
        || (0x2000 <= code && code <= 0x200a) || code == 0x2028 || code == 0x2029 || code == 0x202f
        || code == 0x205f || code == 0x3000
}

/// Calls `std::str::from_utf8`: a byte sequence is text exactly where it is well-formed
/// UTF-8, and the text then has those bytes.
#[verifier::external_body]
fn from_utf8(bytes: &[u8]) -> (text: Option<&str>)
    ensures
        text is Some <==> valid_utf8(bytes@),
        text matches Some(text) ==> text.spec_bytes() == bytes@,
{
    std::str::from_utf8(bytes).ok()
}

/// Decodes UTF-8 bytes; `None` where they are not well formed.
pub fn decode(bytes: &[u8]) -> (text: Option<String>)
    ensures
        text is Some <==> valid_utf8(bytes@),
        text matches Some(text) ==> text@ == decode_utf8(bytes@),
{
    match from_utf8(bytes) {
        None => None,
        Some(text) => {
            proof {
                encode_utf8_decode_utf8(text@);
            }
            Some(text.to_owned())
        },
    }
}

pub fn has_control(text: &str) -> (result: bool)
    ensures
        result == any_control(text@),
{
    let mut found: bool = false;
    for c in iter: text.chars()
        invariant
            iter.seq() == text@,
            found == (exists|i: int| 0 <= i < iter.index() && control(#[trigger] text@[i])),
    {
        if is_control(c) {
            found = true;
        }
    }
    found
}

pub fn is_blank(text: &str) -> (result: bool)
    ensures
        result == blank(text@),
{
    let mut only_space: bool = true;
    for c in iter: text.chars()
        invariant
            iter.seq() == text@,
            only_space == (forall|i: int|
                0 <= i < iter.index() ==> white_space(#[trigger] text@[i])),
    {
        if !is_white_space(c) {
            only_space = false;
        }
    }
    only_space
}

pub fn contains_char(text: &str, wanted: char) -> (result: bool)
    ensures
        result == text@.contains(wanted),
{
    let mut found: bool = false;
    for c in iter: text.chars()
        invariant
            iter.seq() == text@,
            found == (exists|i: int| 0 <= i < iter.index() && #[trigger] text@[i] == wanted),
    {
        if c == wanted {
            found = true;
        }
    }
    found
}

pub fn starts_with(text: &str, prefix: &str) -> (result: bool)
    ensures
        result == prefix@.is_prefix_of(text@),
{
    let mut rest = text.chars();
    let mut matched: bool = true;
    for c in iter: prefix.chars()
        invariant
            iter.seq() == prefix@,
            matched ==> prefix@.take(iter.index()).is_prefix_of(text@),
            matched ==> iter.index() <= text@.len(),
            matched ==> vstd::std_specs::iter::IteratorSpec::remaining(&rest) == text@.skip(iter.index()),
            !matched ==> !prefix@.is_prefix_of(text@),
    {
        let ghost at = iter.index();
        if matched {
            let next = rest.next();
            match next {
                Some(d) => {
                    if c != d {
                        matched = false;
                    }
                },
                None => {
                    matched = false;
                },
            }
            proof {
                if matched {
                    assert(prefix@.take(at + 1) =~= text@.take(at + 1));
                    assert(text@.skip(at).drop_first() =~= text@.skip(at + 1));
                } else if prefix@.is_prefix_of(text@) {
                    assert(prefix@ == text@.take(prefix@.len() as int));
                    assert(prefix@[at] == text@[at]);
                    assert(text@.skip(at)[0] == text@[at]);
                }
            }
        }
    }
    proof {
        assert(prefix@.take(prefix@.len() as int) =~= prefix@);
    }
    matched
}

pub fn same(a: &str, b: &str) -> (result: bool)
    ensures
        result == (a@ == b@),
{
    let x = a.as_bytes();
    let y = b.as_bytes();
    proof {
        encode_utf8_decode_utf8(a@);
        encode_utf8_decode_utf8(b@);
    }
    if x.len() != y.len() {
        return false;
    }
    let mut i: usize = 0;
    while i < x.len()
        invariant
            x@.len() == y@.len(),
            i <= x@.len(),
            x@ == a.spec_bytes(),
            y@ == b.spec_bytes(),
            forall|j: int| 0 <= j < i ==> x@[j] == y@[j],
        decreases x@.len() - i,
    {
        if x[i] != y[i] {
            return false;
        }
        i = i + 1;
    }
    proof {
        assert(x@ =~= y@);
    }
    true
}

/// The character for a digit below sixteen.
pub open spec fn digit(value: int) -> char {
    if value < 10 {
        ('0' as int + value) as char
    } else {
        ('a' as int + value - 10) as char
    }
}

/// A number in decimal, without leading zeros.
pub open spec fn decimal(value: nat) -> Seq<char>
    decreases value,
{
    if value < 10 {
        seq![digit(value as int)]
    } else {
        decimal(value / 10).push(digit(value as int % 10))
    }
}

/// A number in decimal, with a sign where it is negative.
pub open spec fn signed(value: int) -> Seq<char> {
    if value < 0 {
        seq!['-'] + decimal((-value) as nat)
    } else {
        decimal(value as nat)
    }
}

/// A 32-bit number as eight hexadecimal digits.
pub open spec fn hex8(value: int) -> Seq<char> {
    seq![
        digit(value / 0x1000_0000 % 16),
        digit(value / 0x100_0000 % 16),
        digit(value / 0x10_0000 % 16),
        digit(value / 0x1_0000 % 16),
        digit(value / 0x1000 % 16),
        digit(value / 0x100 % 16),
        digit(value / 0x10 % 16),
        digit(value % 16),
    ]
}

/// Adds one digit to a text.
fn push_digit(text: &mut String, value: u32)
    requires
        value < 16,
    ensures
        final(text)@ == old(text)@.push(digit(value as int)),
{
    let shown = match value {
        0 => "0",
        1 => "1",
        2 => "2",
        3 => "3",
        4 => "4",
        5 => "5",
        6 => "6",
        7 => "7",
        8 => "8",
        9 => "9",
        10 => "a",
        11 => "b",
        12 => "c",
        13 => "d",
        14 => "e",
        _ => "f",
    };
    proof {
        reveal_strlit("0");
        reveal_strlit("1");
        reveal_strlit("2");
        reveal_strlit("3");
        reveal_strlit("4");
        reveal_strlit("5");
        reveal_strlit("6");
        reveal_strlit("7");
        reveal_strlit("8");
        reveal_strlit("9");
        reveal_strlit("a");
        reveal_strlit("b");
        reveal_strlit("c");
        reveal_strlit("d");
        reveal_strlit("e");
        reveal_strlit("f");
        assert(shown@ =~= seq![digit(value as int)]);
        assert(text@ + seq![digit(value as int)] =~= text@.push(digit(value as int)));
    }
    text.append(shown);
}

/// Adds a number in decimal to a text.
pub fn push_decimal(text: &mut String, value: u64)
    ensures
        final(text)@ == old(text)@ + decimal(value as nat),
    decreases value,
{
    if value >= 10 {
        push_decimal(text, value / 10);
    }
    push_digit(text, (value % 10) as u32);
    assert(text@ =~= old(text)@ + decimal(value as nat));
}

/// Adds a number in decimal, with its sign, to a text.
pub fn push_signed(text: &mut String, value: i32)
    ensures
        final(text)@ == old(text)@ + signed(value as int),
{
    if value < 0 {
        proof {
            reveal_strlit("-");
            assert("-"@ =~= seq!['-']);
        }
        text.append("-");
        push_decimal(text, (-(value as i64)) as u64);
        assert(text@ =~= old(text)@ + signed(value as int));
    } else {
        push_decimal(text, value as u64);
    }
}

/// Adds eight hexadecimal digits to a text.
pub fn push_hex8(text: &mut String, value: u32)
    ensures
        final(text)@ == old(text)@ + hex8(value as int),
{
    push_digit(text, value / 0x1000_0000 % 16);
    push_digit(text, value / 0x100_0000 % 16);
    push_digit(text, value / 0x10_0000 % 16);
    push_digit(text, value / 0x1_0000 % 16);
    push_digit(text, value / 0x1000 % 16);
    push_digit(text, value / 0x100 % 16);
    push_digit(text, value / 0x10 % 16);
    push_digit(text, value % 16);
    assert(text@ =~= old(text)@ + hex8(value as int));
}

/// The control codes are those below the space, and those from the delete character to the end
/// of the second block of controls; everything else shows or spaces something.
pub proof fn lemma_control_codes(c: char)
    ensures
        control(c) <==> (c as u32) <= 31 || 127 <= (c as u32) <= 159,
{
}

/// The 25 characters of white space.
pub proof fn lemma_white_space_characters(c: char)
    ensures
        white_space(c) <==> seq![
            9int,
            10,
            11,
            12,
            13,
            32,
            133,
            160,
            5760,
            8192,
            8193,
            8194,
            8195,
            8196,
            8197,
            8198,
            8199,
            8200,
            8201,
            8202,
            8232,
            8233,
            8239,
            8287,
            12288,
        ].contains(c as u32 as int),
{
    let all: Seq<int> = seq![
        9int,
        10,
        11,
        12,
        13,
        32,
        133,
        160,
        5760,
        8192,
        8193,
        8194,
        8195,
        8196,
        8197,
        8198,
        8199,
        8200,
        8201,
        8202,
        8232,
        8233,
        8239,
        8287,
        12288,
    ];
    let code = c as u32 as int;
    assert(all[0] == 9 && all[1] == 10 && all[2] == 11 && all[3] == 12 && all[4] == 13);
    assert(all[5] == 32 && all[6] == 133 && all[7] == 160 && all[8] == 5760 && all[9] == 8192);
    assert(all[10] == 8193 && all[11] == 8194 && all[12] == 8195 && all[13] == 8196);
    assert(all[14] == 8197 && all[15] == 8198 && all[16] == 8199 && all[17] == 8200);
    assert(all[18] == 8201 && all[19] == 8202 && all[20] == 8232 && all[21] == 8233);
    assert(all[22] == 8239 && all[23] == 8287 && all[24] == 12288);
}

/// Two texts in a row hold a control code if one of them does, and are blank if both are; a single
/// character decides for itself, and the empty text is blank and holds none.
pub proof fn lemma_texts_in_a_row(a: Seq<char>, b: Seq<char>, c: char)
    ensures
        any_control(a + b) <==> any_control(a) || any_control(b),
        blank(a + b) <==> blank(a) && blank(b),
        any_control(seq![c]) <==> control(c),
        blank(seq![c]) <==> white_space(c),
        blank(Seq::empty()),
        !any_control(Seq::empty()),
{
    let all = a + b;
    if any_control(a) {
        let i = choose|i: int| 0 <= i < a.len() && control(#[trigger] a[i]);
        assert(control(all[i]));
    }
    if any_control(b) {
        let i = choose|i: int| 0 <= i < b.len() && control(#[trigger] b[i]);
        assert(control(all[a.len() + i]));
    }
    if any_control(all) {
        let i = choose|i: int| 0 <= i < all.len() && control(#[trigger] all[i]);
        if i < a.len() {
            assert(control(a[i]));
        } else {
            assert(control(b[i - a.len()]));
        }
    }
    if blank(all) {
        assert forall|i: int| 0 <= i < a.len() implies white_space(#[trigger] a[i]) by {
            assert(white_space(all[i]));
        }
        assert forall|i: int| 0 <= i < b.len() implies white_space(#[trigger] b[i]) by {
            assert(white_space(all[a.len() + i]));
        }
    }
    if blank(a) && blank(b) {
        assert forall|i: int| 0 <= i < all.len() implies white_space(#[trigger] all[i]) by {
            if i < a.len() {
                assert(white_space(a[i]));
            } else {
                assert(white_space(b[i - a.len()]));
            }
        }
    }
    let one = seq![c];
    assert(one[0] == c);
    if control(c) {
        assert(control(one[0]));
    }
    if blank(one) {
        assert(white_space(one[0]));
    }
}

/// The number that a row of digits stands for in a base, the highest first.
pub open spec fn digits_value(text: Seq<char>, base: int) -> int
    decreases text.len(),
{
    if text.len() == 0 {
        0
    } else {
        digits_value(text.drop_last(), base) * base + digit_value(text.last())
    }
}

/// What a digit stands for.
pub open spec fn digit_value(c: char) -> int {
    if '0' <= c && c <= '9' {
        c as int - '0' as int
    } else {
        c as int - 'a' as int + 10
    }
}

/// A number in decimal reads back: it has digits alone, no zero in front but its own, and stands
/// for the number.
pub proof fn lemma_decimal_reads_back(value: nat)
    ensures
        decimal(value).len() > 0,
        forall|i: int|
            0 <= i < decimal(value).len() ==> '0' <= #[trigger] decimal(value)[i] && decimal(
                value,
            )[i] <= '9',
        decimal(value)[0] == '0' <==> value == 0,
        digits_value(decimal(value), 10) == value,
    decreases value,
{
    let text = decimal(value);
    if value < 10 {
        assert(text.drop_last() =~= Seq::empty());
        reveal_with_fuel(digits_value, 2);
    } else {
        lemma_decimal_reads_back(value / 10);
        assert(text.drop_last() =~= decimal(value / 10));
        assert forall|i: int| 0 <= i < text.len() implies '0' <= #[trigger] text[i] && text[i]
            <= '9' by {
            if i < text.len() - 1 {
                assert(text[i] == decimal(value / 10)[i]);
            }
        }
        assert(text[0] == decimal(value / 10)[0]);
    }
}

/// A negative number is a minus sign and the number without it; others have no sign.
pub proof fn lemma_signed_reads_back(value: int)
    ensures
        value >= 0 ==> digits_value(signed(value), 10) == value && signed(value)[0] != '-',
        value < 0 ==> signed(value)[0] == '-' && digits_value(signed(value).drop_first(), 10)
            == -value,
{
    if value >= 0 {
        lemma_decimal_reads_back(value as nat);
    } else {
        lemma_decimal_reads_back((-value) as nat);
        assert(signed(value).drop_first() =~= decimal((-value) as nat));
    }
}

/// Eight hexadecimal digits read back: they are digits or letters up to `f`, and stand for the
/// number.
pub proof fn lemma_hex8_reads_back(value: int)
    requires
        0 <= value <= u32::MAX,
    ensures
        hex8(value).len() == 8,
        forall|i: int|
            0 <= i < 8 ==> {
                let c = #[trigger] hex8(value)[i];
                ('0' <= c && c <= '9') || ('a' <= c && c <= 'f')
            },
        digits_value(hex8(value), 16) == value,
{
    let text = hex8(value);
    let d = Seq::new(8, |i: int| digit_value(text[i]));
    assert(forall|i: int| 0 <= i < 16 ==> digit_value(#[trigger] digit(i)) == i);
    assert(d[7] == value % 16 && d[6] == value / 0x10 % 16);
    assert(d[5] == value / 0x100 % 16 && d[4] == value / 0x1000 % 16);
    assert(d[3] == value / 0x1_0000 % 16 && d[2] == value / 0x10_0000 % 16);
    assert(d[1] == value / 0x100_0000 % 16 && d[0] == value / 0x1000_0000 % 16);
    lemma_eight_digits(text);
    lemma_hex_digits(value);
}

/// The value of eight digits.
proof fn lemma_eight_digits(text: Seq<char>)
    requires
        text.len() == 8,
    ensures
        digits_value(text, 16) == digit_value(text[7]) + 16 * (digit_value(text[6]) + 16 * (
        digit_value(text[5]) + 16 * (digit_value(text[4]) + 16 * (digit_value(text[3]) + 16 * (
        digit_value(text[2]) + 16 * (digit_value(text[1]) + 16 * digit_value(text[0]))))))),
{
    reveal_with_fuel(digits_value, 9);
    let a = text.drop_last();
    let b = a.drop_last();
    let c = b.drop_last();
    let d = c.drop_last();
    let e = d.drop_last();
    let f = e.drop_last();
    let g = f.drop_last();
    assert(g.drop_last() =~= Seq::empty());
    assert(a.last() == text[6] && b.last() == text[5] && c.last() == text[4]);
    assert(d.last() == text[3] && e.last() == text[2] && f.last() == text[1] && g.last()
        == text[0]);
}

/// A 32-bit number is made of its eight hexadecimal digits.
proof fn lemma_hex_digits(value: int)
    requires
        0 <= value <= u32::MAX,
    ensures
        value == value % 16 + 16 * (value / 0x10 % 16 + 16 * (value / 0x100 % 16 + 16 * (value
            / 0x1000 % 16 + 16 * (value / 0x1_0000 % 16 + 16 * (value / 0x10_0000 % 16 + 16 * (
        value / 0x100_0000 % 16 + 16 * (value / 0x1000_0000 % 16))))))),
{
    let a = value / 0x10;
    let b = value / 0x100;
    let c = value / 0x1000;
    let d = value / 0x1_0000;
    let e = value / 0x10_0000;
    let f = value / 0x100_0000;
    let g = value / 0x1000_0000;
    assert(a / 16 == b && b / 16 == c && c / 16 == d);
    assert(d / 16 == e && e / 16 == f && f / 16 == g && g / 16 == 0);
}

} // verus!
