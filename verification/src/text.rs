//! Order, letter case and hexadecimal writing of text.
use vstd::prelude::*;
use vstd::string::{StrSliceExecFns, StringExecFns};

verus! {

/// `a` comes before `b` in the order of their code points, character by character, which is also
/// the order of their UTF-8 bytes.
pub open spec fn text_lt(a: Seq<char>, b: Seq<char>) -> bool
    decreases a.len(),
{
    &&& b.len() > 0
    &&& a.len() > 0 ==> {
        ||| a[0] < b[0]
        ||| a[0] == b[0] && text_lt(a.drop_first(), b.drop_first())
    }
}

/// Whether `a` comes before `b`.
pub fn precedes(a: &str, b: &str) -> (before: bool)
    ensures
        before == text_lt(a@, b@),
{
    let mut rest_a = a.chars();
    let mut rest_b = b.chars();
    loop
        invariant
            text_lt(a@, b@) == text_lt(
                vstd::std_specs::iter::IteratorSpec::remaining(&rest_a),
                vstd::std_specs::iter::IteratorSpec::remaining(&rest_b),
            ),
            vstd::std_specs::iter::IteratorSpec::decrease(&rest_a) is Some,
        decreases vstd::std_specs::iter::IteratorSpec::decrease(&rest_a)->0,
    {
        match (rest_a.next(), rest_b.next()) {
            (_, None) => {
                return false;
            },
            (None, Some(_)) => {
                return true;
            },
            (Some(x), Some(y)) => {
                if x != y {
                    return x < y;
                }
            },
        }
    }
}

/// No text comes before itself.
pub proof fn law_order_irreflexive(a: Seq<char>)
    ensures
        !text_lt(a, a),
    decreases a.len(),
{
    if a.len() > 0 {
        law_order_irreflexive(a.drop_first());
    }
}

/// Of two different texts one comes before the other.
pub proof fn law_order_total(a: Seq<char>, b: Seq<char>)
    ensures
        a == b || text_lt(a, b) || text_lt(b, a),
    decreases a.len(),
{
    if a.len() > 0 && b.len() > 0 && a[0] == b[0] {
        law_order_total(a.drop_first(), b.drop_first());
        if a.drop_first() == b.drop_first() {
            assert(a =~= seq![a[0]] + a.drop_first());
            assert(b =~= seq![b[0]] + b.drop_first());
        }
    } else if a.len() == 0 && b.len() == 0 {
        assert(a =~= b);
    }
}

/// What comes before a text comes before all that it comes before.
pub proof fn law_order_transitive(a: Seq<char>, b: Seq<char>, c: Seq<char>)
    requires
        text_lt(a, b),
        text_lt(b, c),
    ensures
        text_lt(a, c),
    decreases a.len(),
{
    if a.len() > 0 && a[0] == b[0] && b[0] == c[0] {
        law_order_transitive(a.drop_first(), b.drop_first(), c.drop_first());
    }
}

/// Whether two texts are the same.
pub fn same_text(a: &str, b: &str) -> (equal: bool)
    ensures
        equal == (a@ == b@),
{
    proof {
        law_order_total(a@, b@);
        law_order_irreflexive(a@);
    }
    !precedes(a, b) && !precedes(b, a)
}

/// The pieces of a sequence between those elements that are `separator`. There is one more of them
/// than there are separators.
pub open spec fn split<T>(all: Seq<T>, separator: T) -> Seq<Seq<T>>
    decreases all.len(),
{
    if all.len() == 0 {
        seq![Seq::empty()]
    } else {
        let before = split(all.drop_last(), separator);
        if all.last() == separator {
            before.push(Seq::empty())
        } else {
            before.drop_last().push(before.last().push(all.last()))
        }
    }
}

/// The lower case of a text, as `str::to_lowercase` gives it.
pub uninterp spec fn lowercase(text: Seq<char>) -> Seq<char>;

/// The upper case of a character, as `char::to_uppercase` gives it.
pub uninterp spec fn uppercase(letter: char) -> Seq<char>;

/// `str::to_lowercase`, which goes by the text alone. What it gives for a text is not stated, only
/// named.
#[verifier::external_body]
pub(crate) fn to_lowercase(text: &str) -> (lower: String)
    ensures
        lower@ == lowercase(text@),
{
    text.to_lowercase()
}

/// `char::to_uppercase`, which goes by the character alone. The characters that it gives are not
/// stated, only named.
#[verifier::external_body]
fn to_uppercase(letter: char) -> (upper: String)
    ensures
        upper@ == uppercase(letter),
{
    letter.to_uppercase().to_string()
}

/// `text` with its first character in upper case.
pub open spec fn capitalized(text: Seq<char>) -> Seq<char> {
    if text.len() == 0 {
        text
    } else {
        uppercase(text[0]) + text.skip(1)
    }
}

/// Puts the first character in upper case, so that a name looks better where it is shown.
pub fn capitalize(text: String) -> (result: String)
    ensures
        result@ == capitalized(text@),
{
    let len = text.as_str().unicode_len();
    if len == 0 {
        text
    } else {
        let mut result = to_uppercase(text.as_str().get_char(0));
        result.append(text.as_str().substring_char(1, len));
        result
    }
}

/// The sixteen hexadecimal digits.
pub open spec fn hex_digit(value: int) -> char {
    if value < 10 {
        ('0' as int + value) as char
    } else {
        ('a' as int + value - 10) as char
    }
}

/// `bytes` in hexadecimal, two digits for each byte.
pub open spec fn hex(bytes: Seq<u8>) -> Seq<char> {
    Seq::new(
        2 * bytes.len(),
        |i: int|
            hex_digit(
                if i % 2 == 0 {
                    bytes[i / 2] as int / 16
                } else {
                    bytes[i / 2] as int % 16
                },
            ),
    )
}

fn hex_digit_text(value: u8) -> (digit: &'static str)
    requires
        value < 16,
    ensures
        digit@ == seq![hex_digit(value as int)],
{
    proof {
        reveal_strlit("0");
        reveal_strlit("1");
        reveal_strlit("2");
        reveal_strlit("3");
        reveal_strlit("4");
        reveal_strlit("5");
        reveal_strlit("6");
        reveal_strlit("7");
        reveal_strlit("8");
        reveal_strlit("9");
        reveal_strlit("a");
        reveal_strlit("b");
        reveal_strlit("c");
        reveal_strlit("d");
        reveal_strlit("e");
        reveal_strlit("f");
    }
    match value {
        0 => "0",
        1 => "1",
        2 => "2",
        3 => "3",
        4 => "4",
        5 => "5",
        6 => "6",
        7 => "7",
        8 => "8",
        9 => "9",
        10 => "a",
        11 => "b",
        12 => "c",
        13 => "d",
        14 => "e",
        _ => "f",
    }
}

/// Writes bytes in hexadecimal.
pub fn to_hex(bytes: &[u8]) -> (text: String)
    ensures
        text@ == hex(bytes@),
{
    let mut text = String::new();
    let mut i: usize = 0;
    while i < bytes.len()
        invariant
            i <= bytes@.len(),
            text@ == hex(bytes@.take(i as int)),
        decreases bytes@.len() - i,
    {
        text.append(hex_digit_text(bytes[i] / 16));
        text.append(hex_digit_text(bytes[i] % 16));
        assert(text@ =~= hex(bytes@.take(i + 1)));
        i += 1;
    }
    assert(bytes@.take(bytes@.len() as int) =~= bytes@);
    text
}

/// Different bytes are written differently.
pub proof fn law_hex_injective(a: Seq<u8>, b: Seq<u8>)
    requires
        hex(a) == hex(b),
    ensures
        a == b,
{
    assert(hex(a).len() == 2 * a.len() && hex(b).len() == 2 * b.len());
    assert(forall|x: int, y: int|
        0 <= x < 16 && 0 <= y < 16 && #[trigger] hex_digit(x) == #[trigger] hex_digit(y) ==> x
            == y);
    assert forall|i: int| 0 <= i < a.len() implies a[i] == b[i] by {
        assert((2 * i) / 2 == i && (2 * i + 1) / 2 == i);
        assert(hex(a)[2 * i] == hex_digit(a[i] as int / 16));
        assert(hex(b)[2 * i] == hex_digit(b[i] as int / 16));
        assert(hex(a)[2 * i + 1] == hex_digit(a[i] as int % 16));
        assert(hex(b)[2 * i + 1] == hex_digit(b[i] as int % 16));
    }
    assert(a =~= b);
}

/// Of two texts that agree up to a place, the one with the smaller character there comes first, or
/// the one that ends there.
pub proof fn law_order_by_first_difference(a: Seq<char>, b: Seq<char>, place: int)
    requires
        0 <= place <= a.len(),
        place < b.len(),
        a.take(place) == b.take(place),
        place < a.len() ==> a[place] < b[place],
    ensures
        text_lt(a, b),
    decreases place,
{
    if place > 0 {
        assert(a[0] == a.take(place)[0] && b[0] == b.take(place)[0]);
        assert(a.drop_first().take(place - 1) =~= a.take(place).drop_first());
        assert(b.drop_first().take(place - 1) =~= b.take(place).drop_first());
        law_order_by_first_difference(a.drop_first(), b.drop_first(), place - 1);
    }
}

/// A capitalized text starts with the upper case of its first character, and goes on as it did.
pub proof fn law_capitalized_keeps_the_rest(text: Seq<char>)
    ensures
        text.len() == 0 ==> capitalized(text).len() == 0,
        text.len() > 0 ==> {
            let upper = uppercase(text[0]);
            &&& capitalized(text).len() == upper.len() + text.len() - 1
            &&& capitalized(text).take(upper.len() as int) == upper
            &&& forall|i: int|
                1 <= i < text.len() ==> capitalized(text)[upper.len() + i - 1] == #[trigger] text[i]
        },
{
    if text.len() > 0 {
        assert(capitalized(text).take(uppercase(text[0]).len() as int) =~= uppercase(text[0]));
    }
}

/// The value of a hexadecimal digit in lower case.
pub open spec fn digit_value(digit: char) -> int {
    if '0' <= digit <= '9' {
        digit as int - '0' as int
    } else {
        digit as int - 'a' as int + 10
    }
}

/// In hexadecimal each byte is two of the digits `0` to `9` and `a` to `f`, the higher one first.
pub proof fn law_hex_reads_back(bytes: Seq<u8>, i: int)
    requires
        0 <= i < bytes.len(),
    ensures
        hex(bytes).len() == 2 * bytes.len(),
        '0' <= hex(bytes)[2 * i] <= '9' || 'a' <= hex(bytes)[2 * i] <= 'f',
        '0' <= hex(bytes)[2 * i + 1] <= '9' || 'a' <= hex(bytes)[2 * i + 1] <= 'f',
        bytes[i] == 16 * digit_value(hex(bytes)[2 * i]) + digit_value(hex(bytes)[2 * i + 1]),
{
    assert((2 * i) / 2 == i && (2 * i + 1) / 2 == i);
    assert((2 * i) % 2 == 0 && (2 * i + 1) % 2 == 1);
}

/// Pieces with a separator between each two.
pub open spec fn joined<T>(pieces: Seq<Seq<T>>, separator: T) -> Seq<T>
    decreases pieces.len(),
{
    if pieces.len() == 0 {
        Seq::empty()
    } else if pieces.len() == 1 {
        pieces[0]
    } else {
        joined(pieces.drop_last(), separator).push(separator) + pieces.last()
    }
}

/// The pieces of a sequence hold no separator, and put together again they are the sequence.
pub proof fn law_split_joins_again<T>(all: Seq<T>, separator: T)
    ensures
        split(all, separator).len() > 0,
        joined(split(all, separator), separator) == all,
        forall|i: int|
            0 <= i < split(all, separator).len() ==> !(#[trigger] split(
                all,
                separator,
            )[i]).contains(separator),
    decreases all.len(),
{
    let pieces = split(all, separator);
    if all.len() == 0 {
        assert(pieces[0] =~= Seq::empty());
        assert(joined(pieces, separator) =~= all);
    } else {
        let before = split(all.drop_last(), separator);
        law_split_joins_again(all.drop_last(), separator);
        if all.last() == separator {
            assert(pieces.drop_last() =~= before);
            assert(pieces.last() =~= Seq::empty());
            assert(joined(pieces, separator) =~= all);
        } else {
            let last = before.last().push(all.last());
            assert(pieces.drop_last() =~= before.drop_last());
            assert(pieces.last() == last);
            assert(joined(pieces, separator) =~= joined(before, separator).push(all.last()));
            assert(joined(pieces, separator) =~= all);
            assert forall|i: int| 0 <= i < pieces.len() implies !(
            #[trigger] pieces[i]).contains(separator) by {
                if i == pieces.len() - 1 {
                    assert(!before[i].contains(separator));
                    if last.contains(separator) {
                        let k = choose|k: int| 0 <= k < last.len() && last[k] == separator;
                        assert(before[i][k] == separator);
                    }
                } else {
                    assert(pieces[i] == before[i]);
                }
            }
        }
    }
}

} // verus!
