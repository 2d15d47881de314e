//! What can be read back from the escape sequences of inline images.
use vstd::prelude::*;
use image::DynamicImage;
use crate::base64_text::{base64_char, base64_fits, base64_group_char, base64_text, byte_or_zero};
use crate::geometry::{Area, Rect};
use crate::graphics::{exact_buffer, has_png, png_file, png_reply, wide_samples};
use crate::iterm2::{image_escape, placed_escape};
use crate::surface::{escape_of, EncodeError};
use crate::text::decimal;

verus! {

/// Whether a character is a decimal digit.
pub open spec fn is_digit(c: char) -> bool {
    '0' <= c <= '9'
}

/// The number that decimal digits stand for.
pub open spec fn decimal_value(digits: Seq<char>) -> nat
    decreases digits.len(),
{
    if digits.len() == 0 {
        0
    } else {
        10 * decimal_value(digits.drop_last()) + (digits.last() as nat - '0' as nat) as nat
    }
}

/// The digits that a text begins with.
pub open spec fn leading_digits(text: Seq<char>) -> Seq<char>
    decreases text.len(),
{
    if text.len() > 0 && is_digit(text[0]) {
        seq![text[0]] + leading_digits(text.drop_first())
    } else {
        Seq::empty()
    }
}

/// The number that stands in `text` after its beginning `start`.
pub open spec fn number_after(text: Seq<char>, start: Seq<char>) -> nat {
    decimal_value(leading_digits(text.skip(start.len() as int)))
}

/// The six-bit value of a character of the standard base64 alphabet; padding counts as zero.
pub open spec fn base64_value(c: char) -> nat {
    if 'A' <= c <= 'Z' {
        (c as nat - 'A' as nat) as nat
    } else if 'a' <= c <= 'z' {
        (c as nat - 'a' as nat + 26) as nat
    } else if '0' <= c <= '9' {
        (c as nat - '0' as nat + 52) as nat
    } else if c == '+' {
        62
    } else if c == '/' {
        63
    } else {
        0
    }
}

/// The number of padding characters at the end of a base64 text.
pub open spec fn base64_padding(text: Seq<char>) -> nat {
    if text.len() < 4 || text.last() != '=' {
        0
    } else if text[text.len() - 2] != '=' {
        1
    } else {
        2
    }
}

/// The 24 bits that group `group` of a base64 text stands for.
pub open spec fn base64_bits(text: Seq<char>, group: int) -> nat {
    262144 * base64_value(text[4 * group]) + 4096 * base64_value(text[4 * group + 1]) + 64
        * base64_value(text[4 * group + 2]) + base64_value(text[4 * group + 3])
}

/// The bytes that a padded base64 text stands for: three for every group of four characters, less
/// one for every padding character.
pub open spec fn base64_decoded(text: Seq<char>) -> Seq<u8> {
    Seq::new(
        (3 * (text.len() / 4) - base64_padding(text)) as nat,
        |i: int|
            {
                let bits = base64_bits(text, i / 3);
                if i % 3 == 0 {
                    (bits / 65536) as u8
                } else if i % 3 == 1 {
                    (bits / 256 % 256) as u8
                } else {
                    (bits % 256) as u8
                }
            },
    )
}

/// The place of a colon in a text.
pub open spec fn colon_at(text: Seq<char>) -> int {
    choose|i: int| 0 <= i < text.len() && #[trigger] text[i] == ':'
}

/// What stands between the colon of a text and its last character.
pub open spec fn payload(text: Seq<char>) -> Seq<char> {
    text.subrange(colon_at(text) + 1, text.len() - 1)
}

/// The text of a number reads back as the number, and consists of digits, the first of which is not
/// a zero unless it is the only one.
pub proof fn law_decimal_reads_back(value: nat)
    ensures
        decimal_value(decimal(value)) == value,
        decimal(value).len() > 0,
        forall|i: int| 0 <= i < decimal(value).len() ==> is_digit(#[trigger] decimal(value)[i]),
        decimal(value).len() > 1 ==> decimal(value)[0] != '0',
    decreases value,
{
    let text = decimal(value);
    if value < 10 {
        assert(text.drop_last() =~= Seq::empty());
        assert(decimal_value(text.drop_last()) == 0);
        assert(text.last() as nat == 48 + value);
    } else {
        law_decimal_reads_back(value / 10);
        assert(text.drop_last() =~= decimal(value / 10));
        assert(text.last() as nat == 48 + value % 10);
        assert(text[0] == decimal(value / 10)[0]);
        if value / 10 < 10 {
            assert(text[0] as nat == 48 + value / 10);
        } else {
            law_decimal_reads_back(value / 10 / 10);
            assert(decimal(value / 10).len() > 1);
        }
    }
}

/// Digits that are followed by something else are the leading digits of a text.
pub proof fn lemma_leading_digits(digits: Seq<char>, rest: Seq<char>)
    requires
        forall|i: int| 0 <= i < digits.len() ==> is_digit(#[trigger] digits[i]),
        rest.len() > 0 ==> !is_digit(rest[0]),
    ensures
        leading_digits(digits + rest) == digits,
    decreases digits.len(),
{
    let text = digits + rest;
    if digits.len() == 0 {
        assert(text =~= rest);
        assert(leading_digits(text) =~= digits);
    } else {
        assert(is_digit(text[0]));
        assert(text.drop_first() =~= digits.drop_first() + rest);
        lemma_leading_digits(digits.drop_first(), rest);
        assert(leading_digits(text) =~= digits);
    }
}

/// A base64 character reads back as its value, and is no padding and no colon.
proof fn lemma_base64_char(value: nat)
    requires
        value < 64,
    ensures
        base64_value(base64_char(value)) == value,
        base64_char(value) != '=',
        base64_char(value) != ':',
{
}

/// The 24 bits of three bytes, where bytes that are not there are zero.
spec fn three_bytes(data: Seq<u8>, start: int) -> nat {
    65536 * byte_or_zero(data, start) + 256 * byte_or_zero(data, start + 1) + byte_or_zero(
        data,
        start + 2,
    )
}

/// 24 bits fall apart into six-bit values and come together again.
proof fn lemma_sextets(b0: nat, b1: nat, b2: nat)
    requires
        b0 < 256,
        b1 < 256,
        b2 < 256,
    ensures
        ({
            let bits = 65536 * b0 + 256 * b1 + b2;
            &&& bits / 262144 < 64
            &&& 262144 * (bits / 262144) + 4096 * (bits / 4096 % 64) + 64 * (bits / 64 % 64) + bits
                % 64 == bits
            &&& b2 == 0 ==> bits % 64 == 0
            &&& b1 == 0 && b2 == 0 ==> bits / 64 % 64 == 0
        }),
{
    let bits = 65536 * b0 + 256 * b1 + b2;
    assert(bits / 64 / 64 == bits / 4096);
    assert(bits / 4096 / 64 == bits / 262144);
    assert(bits == 64 * (bits / 64) + bits % 64);
    assert(bits / 64 == 64 * (bits / 4096) + bits / 64 % 64);
    assert(bits / 4096 == 64 * (bits / 262144) + bits / 4096 % 64);
    if b2 == 0 {
        assert(bits == 64 * (1024 * b0 + 4 * b1));
    }
    if b1 == 0 && b2 == 0 {
        assert(bits / 64 == 1024 * b0);
    }
}

/// 24 bits fall apart into the bytes that they were made of.
proof fn lemma_octets(b0: nat, b1: nat, b2: nat)
    requires
        b0 < 256,
        b1 < 256,
        b2 < 256,
    ensures
        ({
            let bits = 65536 * b0 + 256 * b1 + b2;
            &&& bits / 65536 == b0
            &&& bits / 256 % 256 == b1
            &&& bits % 256 == b2
        }),
{
    let bits = 65536 * b0 + 256 * b1 + b2;
    assert(bits / 256 == 256 * b0 + b1);
}

/// The characters of a group of a base64 text are those for the bytes that it was made of.
proof fn lemma_group_chars(data: Seq<u8>, group: int, place: int)
    requires
        0 <= group,
        3 * group < data.len(),
        0 <= place < 4,
    ensures
        4 * group + place < base64_text(data).len(),
        base64_text(data)[4 * group + place] == base64_group_char(data, 3 * group, place),
        base64_value(base64_text(data)[4 * group + place]) == ({
            let bits = three_bytes(data, 3 * group);
            if place == 0 {
                bits / 262144
            } else if place == 1 {
                bits / 4096 % 64
            } else if place == 2 {
                bits / 64 % 64
            } else {
                bits % 64
            }
        }),
        base64_text(data)[4 * group + place] == '=' <==> place >= 2 && 3 * group + place - 1
            >= data.len(),
{
    let start = 3 * group;
    assert((4 * group + place) / 4 == group);
    assert((4 * group + place) % 4 == place);
    let bits = three_bytes(data, start);
    lemma_sextets(
        byte_or_zero(data, start),
        byte_or_zero(data, start + 1),
        byte_or_zero(data, start + 2),
    );
    lemma_base64_char(bits / 262144);
    lemma_base64_char(bits / 4096 % 64);
    lemma_base64_char(bits / 64 % 64);
    lemma_base64_char(bits % 64);
}

/// A group of a base64 text stands for the bytes that it was made of.
proof fn lemma_group(data: Seq<u8>, group: int)
    requires
        0 <= group,
        3 * group < data.len(),
    ensures
        base64_bits(base64_text(data), group) == three_bytes(data, 3 * group),
{
    lemma_group_chars(data, group, 0);
    lemma_group_chars(data, group, 1);
    lemma_group_chars(data, group, 2);
    lemma_group_chars(data, group, 3);
    lemma_sextets(
        byte_or_zero(data, 3 * group),
        byte_or_zero(data, 3 * group + 1),
        byte_or_zero(data, 3 * group + 2),
    );
}

/// Encoding bytes as base64 and decoding the text gives the bytes back.
pub proof fn law_base64_decodes(data: Seq<u8>)
    ensures
        base64_decoded(base64_text(data)) == data,
{
    let text = base64_text(data);
    let len = data.len() as int;
    if len > 0 {
        let last = (len - 1) / 3;
        assert(text.len() == 4 * last + 4);
        lemma_group_chars(data, last, 2);
        lemma_group_chars(data, last, 3);
        assert(base64_decoded(text).len() == len);
        assert forall|i: int| 0 <= i < len implies base64_decoded(text)[i] == data[i] by {
            let start = 3 * (i / 3);
            lemma_group(data, i / 3);
            lemma_octets(
                byte_or_zero(data, start),
                byte_or_zero(data, start + 1),
                byte_or_zero(data, start + 2),
            );
        }
    }
    assert(base64_decoded(text) =~= data);
}

/// Whether a character belongs to the standard base64 alphabet.
pub open spec fn in_alphabet(c: char) -> bool {
    'A' <= c <= 'Z' || 'a' <= c <= 'z' || '0' <= c <= '9' || c == '+' || c == '/'
}

proof fn lemma_char_in_alphabet(value: nat)
    requires
        value < 64,
    ensures
        in_alphabet(base64_char(value)),
{
}

proof fn lemma_base64_chars(data: Seq<u8>, i: int)
    requires
        0 <= i < base64_text(data).len(),
    ensures
        base64_text(data)[i] == '=' || in_alphabet(base64_text(data)[i]),
        base64_text(data)[i] == '=' ==> i >= 4 * ((data.len() + 2) / 3) - (3 * ((data.len() + 2)
            / 3) - data.len()),
{
    let group = i / 4;
    let place = i % 4;
    let start = 3 * group;
    assert(start < data.len());
    let bits = three_bytes(data, start);
    lemma_sextets(
        byte_or_zero(data, start),
        byte_or_zero(data, start + 1),
        byte_or_zero(data, start + 2),
    );
    lemma_char_in_alphabet(bits / 262144);
    lemma_char_in_alphabet(bits / 4096 % 64);
    lemma_char_in_alphabet(bits / 64 % 64);
    lemma_char_in_alphabet(bits % 64);
    lemma_group_chars(data, group, place);
    assert(i == 4 * group + place);
}

/// A base64 text has four characters for every three bytes or part of them, all from the standard
/// alphabet but for the padding at its end.
pub proof fn law_base64_alphabet(data: Seq<u8>)
    ensures
        base64_text(data).len() == 4 * ((data.len() + 2) / 3),
        base64_fits(data.len()) <==> base64_text(data).len() <= isize::MAX,
        base64_padding(base64_text(data)) == 3 * ((data.len() + 2) / 3) - data.len(),
        forall|i: int|
            0 <= i < base64_text(data).len() - base64_padding(base64_text(data)) ==> in_alphabet(
                #[trigger] base64_text(data)[i],
            ),
{
    let text = base64_text(data);
    law_base64_decodes(data);
    assert(base64_decoded(text).len() == data.len());
    assert forall|i: int| 0 <= i < text.len() - base64_padding(text) implies in_alphabet(
        #[trigger] text[i],
    ) by {
        lemma_base64_chars(data, i);
    }
}

/// Whether a text has no colon.
spec fn no_colon(text: Seq<char>) -> bool {
    forall|i: int| 0 <= i < text.len() ==> #[trigger] text[i] != ':'
}

proof fn lemma_base64_has_no_colon(data: Seq<u8>)
    ensures
        no_colon(base64_text(data)),
{
    let text = base64_text(data);
    assert forall|i: int| 0 <= i < text.len() implies #[trigger] text[i] != ':' by {
        let start = 3 * (i / 4);
        let bits = three_bytes(data, start);
        lemma_sextets(
            byte_or_zero(data, start),
            byte_or_zero(data, start + 1),
            byte_or_zero(data, start + 2),
        );
        lemma_base64_char(bits / 262144);
        lemma_base64_char(bits / 4096 % 64);
        lemma_base64_char(bits / 64 % 64);
        lemma_base64_char(bits % 64);
    }
}

/// Digits are no colons.
proof fn lemma_decimal_has_no_colon(value: nat)
    ensures
        no_colon(decimal(value)),
{
    law_decimal_reads_back(value);
    assert forall|i: int| 0 <= i < decimal(value).len() implies #[trigger] decimal(value)[i]
        != ':' by {
        assert(is_digit(decimal(value)[i]));
    }
}

/// Texts without a colon make a text without a colon.
proof fn lemma_joined_has_no_colon(first: Seq<char>, second: Seq<char>)
    requires
        no_colon(first),
        no_colon(second),
    ensures
        no_colon(first + second),
{
}

/// A colon between texts that have none is the only one, and leads to what follows it.
proof fn lemma_only_colon(head: Seq<char>, data: Seq<char>, end: char)
    requires
        no_colon(head),
        no_colon(data),
        end != ':',
    ensures
        ({
            let text = head + seq![':'] + data + seq![end];
            &&& colon_at(text) == head.len()
            &&& forall|i: int|
                0 <= i < text.len() ==> (#[trigger] text[i] == ':' <==> i == colon_at(text))
            &&& text.last() == end
            &&& payload(text) == data
        }),
{
    let text = head + seq![':'] + data + seq![end];
    let colon = head.len() as int;
    assert(text[colon] == ':');
    assert forall|i: int| 0 <= i < text.len() implies (#[trigger] text[i] == ':' <==> i
        == colon) by {
        if i < colon {
            assert(text[i] == head[i]);
        } else if i > colon && i < text.len() - 1 {
            assert(text[i] == data[i - colon - 1]);
        }
    }
    assert(payload(text) =~= data);
}

/// A number that stands between a beginning and something other than a digit reads back.
proof fn lemma_number_after(start: Seq<char>, value: nat, rest: Seq<char>)
    requires
        rest.len() > 0,
        !is_digit(rest[0]),
    ensures
        start.is_prefix_of(start + decimal(value) + rest),
        number_after(start + decimal(value) + rest, start) == value,
{
    let text = start + decimal(value) + rest;
    law_decimal_reads_back(value);
    assert(text.skip(start.len() as int) =~= decimal(value) + rest);
    lemma_leading_digits(decimal(value), rest);
    assert(text.take(start.len() as int) =~= start);
}

/// What an inline-image escape begins with, up to the size of the file.
pub open spec fn escape_start() -> Seq<char> {
    "\x1b]1337;File=inline=1;preserveAspectRatio=1;size="@
}

/// What stands before the colon of an inline-image escape.
spec fn escape_head(png: Seq<u8>, area: Area) -> Seq<char> {
    escape_start() + decimal(png.len()) + ";width="@ + decimal(area.width) + ";height="@
        + decimal(area.height)
}

proof fn lemma_escape_head(png: Seq<u8>, area: Area)
    ensures
        no_colon(escape_head(png, area)),
{
    assert(no_colon(escape_start())) by {
        reveal_strlit("\x1b]1337;File=inline=1;preserveAspectRatio=1;size=");
    }
    assert(no_colon(";width="@)) by {
        reveal_strlit(";width=");
    }
    assert(no_colon(";height="@)) by {
        reveal_strlit(";height=");
    }
    lemma_decimal_has_no_colon(png.len());
    lemma_decimal_has_no_colon(area.width);
    lemma_decimal_has_no_colon(area.height);
    let sized = escape_start() + decimal(png.len());
    lemma_joined_has_no_colon(escape_start(), decimal(png.len()));
    lemma_joined_has_no_colon(sized, ";width="@);
    lemma_joined_has_no_colon(sized + ";width="@, decimal(area.width));
    let wide = sized + ";width="@ + decimal(area.width);
    lemma_joined_has_no_colon(wide, ";height="@);
    lemma_joined_has_no_colon(wide + ";height="@, decimal(area.height));
}

/// An inline-image escape carries the whole file: it has exactly one colon, and what stands
/// between that and the bell character at the end is padded base64 text that decodes to the file.
/// The number that it gives as the size is the number of bytes of that file.
pub proof fn law_escape_carries_the_file(png: Seq<u8>, area: Area)
    ensures
        ({
            let escape = image_escape(png, area);
            &&& 0 <= colon_at(escape) < escape.len() - 1
            &&& forall|i: int|
                0 <= i < escape.len() ==> (#[trigger] escape[i] == ':' <==> i == colon_at(escape))
            &&& escape.last() == '\x07'
            &&& payload(escape) == base64_text(png)
            &&& base64_decoded(payload(escape)) == png
            &&& escape_start().is_prefix_of(escape)
            &&& number_after(escape, escape_start()) == base64_decoded(payload(escape)).len()
        }),
{
    let escape = image_escape(png, area);
    let head = escape_head(png, area);
    let data = base64_text(png);
    assert(":"@ =~= seq![':']) by {
        reveal_strlit(":");
    }
    assert("\x07"@ =~= seq!['\x07']) by {
        reveal_strlit("\x07");
    }
    assert(escape == head + seq![':'] + data + seq!['\x07']);
    lemma_escape_head(png, area);
    lemma_base64_has_no_colon(png);
    lemma_only_colon(head, data, '\x07');
    law_base64_decodes(png);
    let rest = escape.skip((escape_start() + decimal(png.len())).len() as int);
    assert(escape =~= escape_start() + decimal(png.len()) + rest);
    assert(rest.len() > 0 && rest[0] == ';') by {
        reveal_strlit(";width=");
    }
    lemma_number_after(escape_start(), png.len(), rest);
}

/// What follows a number that stands in `text` after its beginning `start`.
pub open spec fn after_number(text: Seq<char>, start: Seq<char>) -> Seq<char> {
    text.skip(start.len() as int).skip(
        leading_digits(text.skip(start.len() as int)).len() as int,
    )
}

/// A number that stands between a beginning and something other than a digit is followed by that.
proof fn lemma_after_number(start: Seq<char>, value: nat, rest: Seq<char>)
    requires
        rest.len() > 0,
        !is_digit(rest[0]),
    ensures
        start.is_prefix_of(start + decimal(value) + rest),
        number_after(start + decimal(value) + rest, start) == value,
        after_number(start + decimal(value) + rest, start) == rest,
{
    let text = start + decimal(value) + rest;
    law_decimal_reads_back(value);
    lemma_number_after(start, value, rest);
    assert(text.skip(start.len() as int) =~= decimal(value) + rest);
    lemma_leading_digits(decimal(value), rest);
    assert(after_number(text, start) =~= rest);
}

/// The head of an inline-image escape gives the measures: read from the left, it holds the number of
/// bytes of the file, the width of the area and the height of the area, each after its name, and
/// then a colon.
pub proof fn law_escape_head_reads_back(png: Seq<u8>, area: Area)
    ensures
        ({
            let escape = image_escape(png, area);
            let start = "\x1b]1337;File=inline=1;preserveAspectRatio=1;size="@;
            let sized = after_number(escape, start);
            let wide = after_number(sized, ";width="@);
            let high = after_number(wide, ";height="@);
            &&& start.is_prefix_of(escape)
            &&& number_after(escape, start) == png.len()
            &&& ";width="@.is_prefix_of(sized)
            &&& number_after(sized, ";width="@) == area.width
            &&& ";height="@.is_prefix_of(wide)
            &&& number_after(wide, ";height="@) == area.height
            &&& high.len() > 0
            &&& high[0] == ':'
            &&& high.skip(1) == payload(escape).push('\x07')
        }),
{
    let escape = image_escape(png, area);
    let start = escape_start();
    let data = base64_text(png);
    let high = ":"@ + data + "\x07"@;
    let wide = ";height="@ + decimal(area.height) + high;
    let sized = ";width="@ + decimal(area.width) + wide;
    assert(escape =~= start + decimal(png.len()) + sized);
    assert(":"@ =~= seq![':']) by {
        reveal_strlit(":");
    }
    assert("\x07"@ =~= seq!['\x07']) by {
        reveal_strlit("\x07");
    }
    assert(sized[0] == ';') by {
        reveal_strlit(";width=");
    }
    assert(wide[0] == ';') by {
        reveal_strlit(";height=");
    }
    lemma_after_number(start, png.len(), sized);
    lemma_after_number(";width="@, area.width, wide);
    lemma_after_number(";height="@, area.height, high);
    law_escape_carries_the_file(png, area);
    assert(high.skip(1) =~= data.push('\x07'));
}

/// Escapes are equal only for the same file and the same number of columns and rows.
pub proof fn law_escapes_differ(first: Seq<u8>, here: Area, second: Seq<u8>, there: Area)
    requires
        image_escape(first, here) == image_escape(second, there),
    ensures
        first == second,
        here.width == there.width,
        here.height == there.height,
{
    law_escape_head_reads_back(first, here);
    law_escape_head_reads_back(second, there);
    law_escape_carries_the_file(first, here);
    law_escape_carries_the_file(second, there);
}

/// The escape that is made for an image carries the PNG file of that image.
pub proof fn law_escape_carries_the_image(
    img: DynamicImage,
    area: Rect,
    reply: Result<Seq<u8>, image::ImageError>,
)
    requires
        png_reply(img, reply),
        escape_of(img, area, reply) is Ok,
    ensures
        base64_decoded(payload(escape_of(img, area, reply)->Ok_0)) == png_file(img),
{
    law_escape_carries_the_file(png_file(img), area@);
}

/// The escape for an image depends on the area only through its width and height: two attempts for
/// areas of one extent that both succeed make the same escape. If the samples of the image are of
/// one byte, they either both succeed or both fail.
pub proof fn law_escape_depends_on_the_extent(
    img: DynamicImage,
    first: Rect,
    second: Rect,
    first_reply: Result<Seq<u8>, image::ImageError>,
    second_reply: Result<Seq<u8>, image::ImageError>,
)
    requires
        png_reply(img, first_reply),
        png_reply(img, second_reply),
        first@.width == second@.width,
        first@.height == second@.height,
    ensures
        escape_of(img, first, first_reply) matches Ok(one) ==> escape_of(
            img,
            second,
            second_reply,
        ) matches Ok(other) ==> one == other,
        !wide_samples(img) ==> (escape_of(img, first, first_reply) is Ok <==> escape_of(
            img,
            second,
            second_reply,
        ) is Ok),
{
}

/// An image that is not empty, has samples of one byte and fills its buffer is always encoded, as
/// long as the text of its file is not longer than memory can hold.
pub proof fn law_plain_images_are_encoded(
    img: DynamicImage,
    area: Rect,
    reply: Result<Seq<u8>, image::ImageError>,
)
    requires
        png_reply(img, reply),
        exact_buffer(img),
        has_png(img),
        !wide_samples(img),
        base64_fits(png_file(img).len()),
    ensures
        escape_of(img, area, reply) == Ok::<Seq<char>, EncodeError>(
            image_escape(png_file(img), area@),
        ),
{
}

/// What is written for an inline image saves the cursor first and restores it last.
pub proof fn law_cursor_is_restored(escape: Seq<char>, area: Rect)
    ensures
        ({
            let written = placed_escape(escape, area@);
            &&& written.len() >= 4
            &&& written.take(2) == seq!['\x1b', '7']
            &&& written.skip(written.len() - 2) == seq!['\x1b', '8']
        }),
{
    reveal_strlit("\x1b7");
    reveal_strlit("\x1b8");
    let written = placed_escape(escape, area@);
    assert(written.take(2) =~= seq!['\x1b', '7']);
    assert(written.skip(written.len() - 2) =~= seq!['\x1b', '8']);
}

} // verus!
