//! The plain-text pixmap format: a header naming the size and the largest
//! channel value, then one line of three decimal channels per pixel.
use vstd::prelude::*;

verus! {

/// The character that writes the decimal digit `d`.
pub open spec fn digit_char(d: nat) -> char {
    if d == 0 {
        '0'
    } else if d == 1 {
        '1'
    } else if d == 2 {
        '2'
    } else if d == 3 {
        '3'
    } else if d == 4 {
        '4'
    } else if d == 5 {
        '5'
    } else if d == 6 {
        '6'
    } else if d == 7 {
        '7'
    } else if d == 8 {
        '8'
    } else {
        '9'
    }
}

/// Decimal digits of `n`, most significant first, without leading zeros.
pub open spec fn nat_text(n: nat) -> Seq<char>
    decreases n,
{
    if n < 10 {
        seq![digit_char(n)]
    } else {
        nat_text(n / 10).push(digit_char(n % 10))
    }
}

/// Decimal text of `n`, with a leading `-` when it is negative.
pub open spec fn int_text(n: int) -> Seq<char> {
    if n < 0 {
        seq!['-'] + nat_text((-n) as nat)
    } else {
        nat_text(n as nat)
    }
}

fn digit_str(d: u64) -> (r: &'static str)
    requires
        d < 10,
    ensures
        r@ == seq![digit_char(d as nat)],
{
    proof {
        reveal_strlit("0");
        reveal_strlit("1");
        reveal_strlit("2");
        reveal_strlit("3");
        reveal_strlit("4");
        reveal_strlit("5");
        reveal_strlit("6");
        reveal_strlit("7");
        reveal_strlit("8");
        reveal_strlit("9");
    }
    if d == 0 {
        "0"
    } else if d == 1 {
        "1"
    } else if d == 2 {
        "2"
    } else if d == 3 {
        "3"
    } else if d == 4 {
        "4"
    } else if d == 5 {
        "5"
    } else if d == 6 {
        "6"
    } else if d == 7 {
        "7"
    } else if d == 8 {
        "8"
    } else {
        "9"
    }
}

/// Appends the decimal digits of `n` to `s`.
fn append_nat(s: &mut String, n: u64)
    ensures
        final(s)@ == old(s)@ + nat_text(n as nat),
    decreases n,
{
    if n >= 10 {
        append_nat(s, n / 10);
    }
    s.append(digit_str(n % 10));
}

/// Appends the decimal text of `n` to `s`.
fn append_int(s: &mut String, n: i64)
    ensures
        final(s)@ == old(s)@ + int_text(n as int),
{
    if n < 0 {
        proof {
            reveal_strlit("-");
        }
        s.append("-");
        let m: u64 = ((-(n + 1)) as u64) + 1;
        append_nat(s, m);
    } else {
        append_nat(s, n as u64);
    }
}

/// The header: the format tag, the width and height, the largest channel
/// value, then an empty line.
pub open spec fn header_spec(width: nat, height: nat) -> Seq<char> {
    seq!['P', '3', '\n'] + nat_text(width) + seq![' '] + nat_text(height) + seq![
        '\n',
        '2',
        '5',
        '5',
        '\n',
        '\n',
    ]
}

/// One pixel: its red, green and blue channels in decimal, separated by
/// single spaces and ended by a newline.
pub open spec fn pixel_spec(r: int, g: int, b: int) -> Seq<char> {
    int_text(r) + seq![' '] + int_text(g) + seq![' '] + int_text(b) + seq!['\n']
}

/// The lines of the given pixels, in order.
pub open spec fn pixels_spec(pixels: Seq<(i64, i64, i64)>) -> Seq<char>
    decreases pixels.len(),
{
    if pixels.len() == 0 {
        Seq::empty()
    } else {
        let last = pixels.last();
        pixels_spec(pixels.drop_last()) + pixel_spec(last.0 as int, last.1 as int, last.2 as int)
    }
}

/// A whole image: the header, then one line per pixel.
pub open spec fn image_spec(width: nat, height: nat, pixels: Seq<(i64, i64, i64)>) -> Seq<char> {
    header_spec(width, height) + pixels_spec(pixels)
}

/// The header of an image of `width` by `height` pixels.
pub fn header_text(width: u64, height: u64) -> (r: String)
    ensures
        r@ == header_spec(width as nat, height as nat),
{
    proof {
        reveal_strlit("P3\n");
        reveal_strlit(" ");
        reveal_strlit("\n255\n\n");
    }
    let mut s = String::from_str("P3\n");
    append_nat(&mut s, width);
    s.append(" ");
    append_nat(&mut s, height);
    s.append("\n255\n\n");
    s
}

/// Appends the line of one pixel to `s`.
fn append_pixel(s: &mut String, r: i64, g: i64, b: i64)
    ensures
        final(s)@ == old(s)@ + pixel_spec(r as int, g as int, b as int),
{
    proof {
        reveal_strlit(" ");
        reveal_strlit("\n");
    }
    append_int(s, r);
    s.append(" ");
    append_int(s, g);
    s.append(" ");
    append_int(s, b);
    s.append("\n");
}

/// The line of one pixel with channels `r`, `g` and `b`.
pub fn pixel_line(r: i64, g: i64, b: i64) -> (line: String)
    ensures
        line@ == pixel_spec(r as int, g as int, b as int),
{
    let mut s = String::new();
    append_pixel(&mut s, r, g, b);
    s
}

/// The text of a `width` by `height` image whose pixels are given in the
/// order in which they are written.
pub fn image_text(width: u64, height: u64, pixels: &Vec<(i64, i64, i64)>) -> (r: String)
    requires
        pixels@.len() == width * height,
    ensures
        r@ == image_spec(width as nat, height as nat, pixels@),
{
    let mut s = header_text(width, height);
    let mut k: usize = 0;
    while k < pixels.len()
        invariant
            k <= pixels@.len(),
            s@ == header_spec(width as nat, height as nat) + pixels_spec(pixels@.take(k as int)),
        decreases pixels@.len() - k,
    {
        let (pr, pg, pb) = pixels[k];
        append_pixel(&mut s, pr, pg, pb);
        proof {
            assert(pixels@.take(k + 1).drop_last() == pixels@.take(k as int));
        }
        k = k + 1;
    }
    proof {
        assert(pixels@.take(k as int) == pixels@);
    }
    s
}

/// How many newline characters `s` holds: the number of lines of a text
/// whose every line is ended by one.
pub open spec fn newline_count(s: Seq<char>) -> nat
    decreases s.len(),
{
    if s.len() == 0 {
        0
    } else {
        newline_count(s.drop_last()) + if s.last() == '\n' {
            1nat
        } else {
            0nat
        }
    }
}

proof fn lemma_newline_count_concat(a: Seq<char>, b: Seq<char>)
    ensures
        newline_count(a + b) == newline_count(a) + newline_count(b),
    decreases b.len(),
{
    if b.len() == 0 {
        assert(a + b == a);
    } else {
        assert((a + b).drop_last() == a + b.drop_last());
        lemma_newline_count_concat(a, b.drop_last());
    }
}

proof fn lemma_nat_text_one_line(n: nat)
    ensures
        newline_count(nat_text(n)) == 0,
    decreases n,
{
    if n < 10 {
        lemma_literal_lines(digit_char(n));
    } else {
        lemma_nat_text_one_line(n / 10);
        assert(nat_text(n).drop_last() == nat_text(n / 10));
        assert(nat_text(n).last() == digit_char(n % 10));
    }
}

proof fn lemma_int_text_one_line(n: int)
    ensures
        newline_count(int_text(n)) == 0,
{
    lemma_nat_text_one_line(if n < 0 { (-n) as nat } else { n as nat });
    if n < 0 {
        lemma_newline_count_concat(seq!['-'], nat_text((-n) as nat));
        lemma_literal_lines('-');
    }
}

proof fn lemma_literal_lines(c: char)
    ensures
        newline_count(seq![c]) == if c == '\n' {
            1nat
        } else {
            0nat
        },
{
    reveal_with_fuel(newline_count, 2);
    assert(seq![c].drop_last() == Seq::<char>::empty());
}

proof fn lemma_pixel_one_line(r: int, g: int, b: int)
    ensures
        newline_count(pixel_spec(r, g, b)) == 1,
{
    lemma_int_text_one_line(r);
    lemma_int_text_one_line(g);
    lemma_int_text_one_line(b);
    lemma_literal_lines(' ');
    lemma_literal_lines('\n');
    let s1 = int_text(r) + seq![' '];
    let s2 = s1 + int_text(g);
    let s3 = s2 + seq![' '];
    let s4 = s3 + int_text(b);
    lemma_newline_count_concat(int_text(r), seq![' ']);
    lemma_newline_count_concat(s1, int_text(g));
    lemma_newline_count_concat(s2, seq![' ']);
    lemma_newline_count_concat(s3, int_text(b));
    lemma_newline_count_concat(s4, seq!['\n']);
}

proof fn lemma_pixels_lines(pixels: Seq<(i64, i64, i64)>)
    ensures
        newline_count(pixels_spec(pixels)) == pixels.len(),
    decreases pixels.len(),
{
    if pixels.len() > 0 {
        let last = pixels.last();
        lemma_pixels_lines(pixels.drop_last());
        lemma_pixel_one_line(last.0 as int, last.1 as int, last.2 as int);
        lemma_newline_count_concat(
            pixels_spec(pixels.drop_last()),
            pixel_spec(last.0 as int, last.1 as int, last.2 as int),
        );
    }
}

proof fn lemma_header_lines(width: nat, height: nat)
    ensures
        newline_count(header_spec(width, height)) == 4,
{
    let tag = seq!['P', '3', '\n'];
    let tail = seq!['\n', '2', '5', '5', '\n', '\n'];
    reveal_with_fuel(newline_count, 7);
    assert(tag.drop_last() == seq!['P', '3']);
    assert(tag.drop_last().drop_last() == seq!['P']);
    assert(tag.drop_last().drop_last().drop_last() == Seq::<char>::empty());
    assert(newline_count(tag) == 1);
    assert(tail.drop_last() == seq!['\n', '2', '5', '5', '\n']);
    assert(tail.drop_last().drop_last() == seq!['\n', '2', '5', '5']);
    assert(tail.drop_last().drop_last().drop_last() == seq!['\n', '2', '5']);
    assert(tail.drop_last().drop_last().drop_last().drop_last() == seq!['\n', '2']);
    assert(tail.drop_last().drop_last().drop_last().drop_last().drop_last() == seq!['\n']);
    assert(seq!['\n'].drop_last() == Seq::<char>::empty());
    assert(newline_count(tail) == 3);
    lemma_nat_text_one_line(width);
    lemma_nat_text_one_line(height);
    lemma_literal_lines(' ');
    let s1 = tag + nat_text(width);
    let s2 = s1 + seq![' '];
    let s3 = s2 + nat_text(height);
    lemma_newline_count_concat(tag, nat_text(width));
    lemma_newline_count_concat(s1, seq![' ']);
    lemma_newline_count_concat(s2, nat_text(height));
    lemma_newline_count_concat(s3, tail);
}

/// The text of a `width` by `height` image has exactly four header lines
/// followed by one line for each pixel.
pub proof fn lemma_image_line_count(width: nat, height: nat, pixels: Seq<(i64, i64, i64)>)
    requires
        pixels.len() == width * height,
    ensures
        newline_count(image_spec(width, height, pixels)) == 4 + width * height,
        newline_count(header_spec(width, height)) == 4,
        newline_count(pixels_spec(pixels)) == width * height,
{
    lemma_header_lines(width, height);
    lemma_pixels_lines(pixels);
    lemma_newline_count_concat(header_spec(width, height), pixels_spec(pixels));
}

} // verus!
