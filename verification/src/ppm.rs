//! Serialization of a rendered image as an ASCII PPM document.
//!
//! The document is the header `P3\n<width> <height>\n255\n` followed by one
//! line per pixel, `<r> <g> <b>\n`, in raster-scan order. Every function here
//! is specified down to the exact character sequence it produces.

use crate::color::Color8;
use vstd::prelude::*;
use vstd::string::StringExecFns;

verus! {

/// The character for a single decimal digit.
pub open spec fn digit_char(d: int) -> char {
    if d == 0 {
        '0'
    } else if d == 1 {
        '1'
    } else if d == 2 {
        '2'
    } else if d == 3 {
        '3'
    } else if d == 4 {
        '4'
    } else if d == 5 {
        '5'
    } else if d == 6 {
        '6'
    } else if d == 7 {
        '7'
    } else if d == 8 {
        '8'
    } else {
        '9'
    }
}

/// The usual decimal rendering of `n`: most significant digit first, no
/// leading zeros (except for `n == 0` itself).
pub open spec fn dec_seq(n: nat) -> Seq<char>
    decreases n,
{
    if n < 10 {
        seq![digit_char(n as int)]
    } else {
        dec_seq(n / 10) + seq![digit_char((n % 10) as int)]
    }
}

fn digit_str(d: u32) -> (r: &'static str)
    requires
        d < 10,
    ensures
        r@ == seq![digit_char(d as int)],
{
    if d == 0 {
        proof {
            reveal_strlit("0");
            assert("0"@ =~= seq![digit_char(d as int)]);
        }
        "0"
    } else if d == 1 {
        proof {
            reveal_strlit("1");
            assert("1"@ =~= seq![digit_char(d as int)]);
        }
        "1"
    } else if d == 2 {
        proof {
            reveal_strlit("2");
            assert("2"@ =~= seq![digit_char(d as int)]);
        }
        "2"
    } else if d == 3 {
        proof {
            reveal_strlit("3");
            assert("3"@ =~= seq![digit_char(d as int)]);
        }
        "3"
    } else if d == 4 {
        proof {
            reveal_strlit("4");
            assert("4"@ =~= seq![digit_char(d as int)]);
        }
        "4"
    } else if d == 5 {
        proof {
            reveal_strlit("5");
            assert("5"@ =~= seq![digit_char(d as int)]);
        }
        "5"
    } else if d == 6 {
        proof {
            reveal_strlit("6");
            assert("6"@ =~= seq![digit_char(d as int)]);
        }
        "6"
    } else if d == 7 {
        proof {
            reveal_strlit("7");
            assert("7"@ =~= seq![digit_char(d as int)]);
        }
        "7"
    } else if d == 8 {
        proof {
            reveal_strlit("8");
            assert("8"@ =~= seq![digit_char(d as int)]);
        }
        "8"
    } else {
        proof {
            reveal_strlit("9");
            assert("9"@ =~= seq![digit_char(d as int)]);
        }
        "9"
    }
}

/// Renders `n` in decimal.
pub fn u32_string(n: u32) -> (s: String)
    ensures
        s@ == dec_seq(n as nat),
    decreases n,
{
    if n < 10 {
        String::from_str(digit_str(n))
    } else {
        let mut s = u32_string(n / 10);
        s.append(digit_str(n % 10));
        proof {
            assert(s@ =~= dec_seq(n as nat));
        }
        s
    }
}

/// One line of the pixel raster: the three channels in decimal, separated by
/// single spaces, closed by a newline.
pub open spec fn pixel_line_spec(c: Color8) -> Seq<char> {
    dec_seq(c.r as nat) + seq![' '] + dec_seq(c.g as nat) + seq![' '] + dec_seq(c.b as nat)
        + seq!['\n']
}

/// Serializes one pixel as its image line.
pub fn pixel_line(c: Color8) -> (s: String)
    ensures
        s@ == pixel_line_spec(c),
{
    let mut s = u32_string(c.r as u32);
    s.append(" ");
    let g = u32_string(c.g as u32);
    s.append(g.as_str());
    s.append(" ");
    let b = u32_string(c.b as u32);
    s.append(b.as_str());
    s.append("\n");
    proof {
        reveal_strlit(" ");
        reveal_strlit("\n");
        assert(s@ =~= pixel_line_spec(c));
    }
    s
}

/// The document header: magic number, image dimensions, maximum channel value.
pub open spec fn header_spec(width: u32, height: u32) -> Seq<char> {
    seq!['P', '3', '\n'] + dec_seq(width as nat) + seq![' '] + dec_seq(height as nat) + seq!['\n']
        + seq!['2', '5', '5', '\n']
}

/// Serializes the document header for a `width` by `height` image.
pub fn ppm_header(width: u32, height: u32) -> (s: String)
    ensures
        s@ == header_spec(width, height),
{
    let mut s = String::from_str("P3\n");
    let w = u32_string(width);
    s.append(w.as_str());
    s.append(" ");
    let h = u32_string(height);
    s.append(h.as_str());
    s.append("\n255\n");
    proof {
        reveal_strlit("P3\n");
        reveal_strlit(" ");
        reveal_strlit("\n255\n");
        assert(s@ =~= header_spec(width, height));
    }
    s
}

/// The pixel raster: the image lines of `pixels`, in order.
pub open spec fn lines_spec(pixels: Seq<Color8>) -> Seq<char>
    decreases pixels.len(),
{
    if pixels.len() == 0 {
        Seq::empty()
    } else {
        pixel_line_spec(pixels[0]) + lines_spec(pixels.drop_first())
    }
}

/// The whole document: header, then one line per pixel.
pub open spec fn image_spec(width: u32, height: u32, pixels: Seq<Color8>) -> Seq<char> {
    header_spec(width, height) + lines_spec(pixels)
}

proof fn lemma_lines_spec_push(pixels: Seq<Color8>, c: Color8)
    ensures
        lines_spec(pixels.push(c)) == lines_spec(pixels) + pixel_line_spec(c),
    decreases pixels.len(),
{
    if pixels.len() == 0 {
        assert(pixels.push(c).drop_first() =~= Seq::<Color8>::empty());
        assert(pixels.push(c)[0] == c);
        assert(lines_spec(pixels.push(c)) == pixel_line_spec(c) + lines_spec(
            pixels.push(c).drop_first(),
        ));
        assert(lines_spec(pixels.push(c).drop_first()) =~= Seq::<char>::empty());
        assert(lines_spec(pixels) =~= Seq::<char>::empty());
        assert(lines_spec(pixels.push(c)) =~= lines_spec(pixels) + pixel_line_spec(c));
    } else {
        lemma_lines_spec_push(pixels.drop_first(), c);
        assert(pixels.push(c)[0] == pixels[0]);
        assert(pixels.push(c).drop_first() =~= pixels.drop_first().push(c));
        assert(lines_spec(pixels.push(c)) == pixel_line_spec(pixels[0]) + lines_spec(
            pixels.drop_first().push(c),
        ));
        assert(lines_spec(pixels.push(c)) =~= lines_spec(pixels) + pixel_line_spec(c));
    }
}

/// Serializes a `width` by `height` image: the header, then the line of each
/// pixel of `pixels` in the order given.
pub fn ppm_image(width: u32, height: u32, pixels: &Vec<Color8>) -> (s: String)
    requires
        pixels@.len() == width as int * height as int,
    ensures
        s@ == image_spec(width, height, pixels@),
{
    let mut s = ppm_header(width, height);
    proof {
        assert(pixels@.take(0) =~= Seq::<Color8>::empty());
        assert(s@ =~= header_spec(width, height) + lines_spec(pixels@.take(0)));
    }
    let mut idx: usize = 0;
    while idx < pixels.len()
        invariant
            idx <= pixels@.len(),
            s@ == header_spec(width, height) + lines_spec(pixels@.take(idx as int)),
        decreases pixels@.len() - idx,
    {
        let line = pixel_line(pixels[idx]);
        s.append(line.as_str());
        proof {
            lemma_lines_spec_push(pixels@.take(idx as int), pixels@[idx as int]);
            assert(pixels@.take(idx as int + 1) =~= pixels@.take(idx as int).push(
                pixels@[idx as int],
            ));
            assert(s@ =~= header_spec(width, height) + lines_spec(pixels@.take(idx as int + 1)));
        }
        idx += 1;
    }
    proof {
        assert(pixels@.take(pixels@.len() as int) =~= pixels@);
    }
    s
}

/// How many newline characters `s` holds; each one closes a line of the
/// document, so this is the document's line count.
pub open spec fn newline_count(s: Seq<char>) -> nat
    decreases s.len(),
{
    if s.len() == 0 {
        0
    } else {
        (if s[0] == '\n' {
            1nat
        } else {
            0nat
        }) + newline_count(s.drop_first())
    }
}

proof fn lemma_newline_count_add(a: Seq<char>, b: Seq<char>)
    ensures
        newline_count(a + b) == newline_count(a) + newline_count(b),
    decreases a.len(),
{
    if a.len() == 0 {
        assert(a + b =~= b);
    } else {
        lemma_newline_count_add(a.drop_first(), b);
        assert((a + b).drop_first() =~= a.drop_first() + b);
        assert((a + b)[0] == a[0]);
    }
}

proof fn lemma_dec_seq_no_newline(n: nat)
    ensures
        newline_count(dec_seq(n)) == 0,
    decreases n,
{
    reveal_with_fuel(newline_count, 3);
    if n < 10 {
        assert(seq![digit_char(n as int)].drop_first() =~= Seq::<char>::empty());
    } else {
        lemma_dec_seq_no_newline(n / 10);
        assert(seq![digit_char((n % 10) as int)].drop_first() =~= Seq::<char>::empty());
        lemma_newline_count_add(dec_seq(n / 10), seq![digit_char((n % 10) as int)]);
    }
}

proof fn lemma_single_newline_count(c: char)
    ensures
        newline_count(seq![c]) == (if c == '\n' {
            1nat
        } else {
            0nat
        }),
{
    reveal_with_fuel(newline_count, 3);
    assert(seq![c].drop_first() =~= Seq::<char>::empty());
}

/// Law: a pixel's image line holds exactly one newline — the one that closes
/// it; the channel digits and separators contribute none.
pub proof fn lemma_pixel_line_newlines(c: Color8)
    ensures
        newline_count(pixel_line_spec(c)) == 1,
{
    lemma_dec_seq_no_newline(c.r as nat);
    lemma_dec_seq_no_newline(c.g as nat);
    lemma_dec_seq_no_newline(c.b as nat);
    lemma_single_newline_count(' ');
    lemma_single_newline_count('\n');
    lemma_newline_count_add(dec_seq(c.r as nat), seq![' ']);
    lemma_newline_count_add(dec_seq(c.r as nat) + seq![' '], dec_seq(c.g as nat));
    lemma_newline_count_add(dec_seq(c.r as nat) + seq![' '] + dec_seq(c.g as nat), seq![' ']);
    lemma_newline_count_add(
        dec_seq(c.r as nat) + seq![' '] + dec_seq(c.g as nat) + seq![' '],
        dec_seq(c.b as nat),
    );
    lemma_newline_count_add(
        dec_seq(c.r as nat) + seq![' '] + dec_seq(c.g as nat) + seq![' '] + dec_seq(c.b as nat),
        seq!['\n'],
    );
}

proof fn lemma_lines_newlines(pixels: Seq<Color8>)
    ensures
        newline_count(lines_spec(pixels)) == pixels.len(),
    decreases pixels.len(),
{
    if pixels.len() > 0 {
        lemma_pixel_line_newlines(pixels[0]);
        lemma_lines_newlines(pixels.drop_first());
        lemma_newline_count_add(pixel_line_spec(pixels[0]), lines_spec(pixels.drop_first()));
    }
}

/// Law: the header closes exactly three lines.
pub proof fn lemma_header_newlines(width: u32, height: u32)
    ensures
        newline_count(header_spec(width, height)) == 3,
{
    lemma_dec_seq_no_newline(width as nat);
    lemma_dec_seq_no_newline(height as nat);
    reveal_with_fuel(newline_count, 6);
    assert(newline_count(seq!['P', '3', '\n']) == 1);
    assert(newline_count(seq!['2', '5', '5', '\n']) == 1);
    lemma_single_newline_count(' ');
    lemma_single_newline_count('\n');
    lemma_newline_count_add(seq!['P', '3', '\n'], dec_seq(width as nat));
    lemma_newline_count_add(seq!['P', '3', '\n'] + dec_seq(width as nat), seq![' ']);
    lemma_newline_count_add(
        seq!['P', '3', '\n'] + dec_seq(width as nat) + seq![' '],
        dec_seq(height as nat),
    );
    lemma_newline_count_add(
        seq!['P', '3', '\n'] + dec_seq(width as nat) + seq![' '] + dec_seq(height as nat),
        seq!['\n'],
    );
    lemma_newline_count_add(
        seq!['P', '3', '\n'] + dec_seq(width as nat) + seq![' '] + dec_seq(height as nat)
            + seq!['\n'],
        seq!['2', '5', '5', '\n'],
    );
}

/// Law: the serialized image is a well-formed document — its three header
/// lines are followed by exactly one line per pixel.
pub proof fn lemma_image_newlines(width: u32, height: u32, pixels: Seq<Color8>)
    ensures
        newline_count(image_spec(width, height, pixels)) == 3 + pixels.len(),
{
    lemma_header_newlines(width, height);
    lemma_lines_newlines(pixels);
    lemma_newline_count_add(header_spec(width, height), lines_spec(pixels));
}

} // verus!
