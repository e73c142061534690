use vstd::prelude::*;

verus! {

/// The character of a decimal digit `d` (0 to 9).
pub open spec fn digit_char(d: nat) -> char {
    (48 + d) as char
}

/// The decimal representation of `n`, most significant digit first, with no
/// leading zeros (`0` is written as a single `0`).
pub open spec fn decimal(n: nat) -> Seq<char>
    decreases n,
{
    if n < 10 {
        seq![digit_char(n)]
    } else {
        decimal(n / 10).push(digit_char(n % 10))
    }
}

/// `n` in decimal, padded on the left with `0` up to `width` characters, as
/// the format `{:0width}` writes it; wider numbers are written in full.
pub open spec fn zero_padded(n: nat, width: nat) -> Seq<char> {
    let d = decimal(n);
    if d.len() >= width {
        d
    } else {
        Seq::new((width - d.len()) as nat, |i: int| '0') + d
    }
}

/// The extension of every frame file.
pub open spec fn png_suffix() -> Seq<char> {
    seq!['.', 'p', 'n', 'g']
}

/// The file name of frame `frame`: the stem, the frame number padded to three
/// digits, and `.png` (as `format!("{stem}{:03}.png", frame)`).
pub open spec fn frame_file_name(stem: Seq<char>, frame: nat) -> Seq<char> {
    stem + zero_padded(frame, 3) + png_suffix()
}

fn digit_str(d: u32) -> (s: &'static str)
    requires
        d < 10,
    ensures
        s@ == seq![digit_char(d as nat)],
{
    proof {
        reveal_strlit("0");
        reveal_strlit("1");
        reveal_strlit("2");
        reveal_strlit("3");
        reveal_strlit("4");
        reveal_strlit("5");
        reveal_strlit("6");
        reveal_strlit("7");
        reveal_strlit("8");
        reveal_strlit("9");
    }
    if d == 0 {
        "0"
    } else if d == 1 {
        "1"
    } else if d == 2 {
        "2"
    } else if d == 3 {
        "3"
    } else if d == 4 {
        "4"
    } else if d == 5 {
        "5"
    } else if d == 6 {
        "6"
    } else if d == 7 {
        "7"
    } else if d == 8 {
        "8"
    } else {
        "9"
    }
}

/// Appends the decimal digits of `n` to `out`.
fn push_decimal(out: &mut String, n: u32)
    ensures
        final(out)@ == old(out)@ + decimal(n as nat),
    decreases n,
{
    if n < 10 {
        out.append(digit_str(n));
    } else {
        push_decimal(out, n / 10);
        out.append(digit_str(n % 10));
    }
}

/// The decimal form of `n` has one digit below 10, two below 100, and at
/// least three from 100 on.
proof fn lemma_decimal_len(n: nat)
    ensures
        n < 10 ==> decimal(n).len() == 1,
        10 <= n < 100 ==> decimal(n).len() == 2,
        100 <= n ==> decimal(n).len() >= 3,
    decreases n,
{
    if n >= 10 {
        lemma_decimal_len(n / 10);
    }
}

/// The file name of frame `frame`: `stem`, then the frame number in decimal
/// padded with zeros to at least three digits, then `.png`.
pub fn frame_file_name_for(stem: &str, frame: u32) -> (name: String)
    ensures
        name@ == frame_file_name(stem@, frame as nat),
{
    let mut name = String::from_str(stem);
    proof {
        reveal_strlit("00");
        reveal_strlit("0");
        reveal_strlit(".png");
        lemma_decimal_len(frame as nat);
    }
    if frame < 10 {
        name.append("00");
    } else if frame < 100 {
        name.append("0");
    }
    push_decimal(&mut name, frame);
    name.append(".png");
    proof {
        let d = decimal(frame as nat);
        if frame < 10 {
            assert(Seq::new((3 - d.len()) as nat, |i: int| '0') =~= "00"@);
        } else if frame < 100 {
            assert(Seq::new((3 - d.len()) as nat, |i: int| '0') =~= "0"@);
        }
        assert(png_suffix() =~= ".png"@);
        assert(name@ =~= frame_file_name(stem@, frame as nat));
    }
    name
}

/// The number that a sequence of decimal digit characters denotes.
pub open spec fn digits_value(s: Seq<char>) -> int
    decreases s.len(),
{
    if s.len() == 0 {
        0
    } else {
        digits_value(s.drop_last()) * 10 + (s.last() as int - 48)
    }
}

proof fn lemma_decimal_value(n: nat)
    ensures
        digits_value(decimal(n)) == n,
    decreases n,
{
    if n >= 10 {
        lemma_decimal_value(n / 10);
        assert(decimal(n).drop_last() =~= decimal(n / 10));
        assert(digit_char(n % 10) as int == 48 + n % 10);
        assert(decimal(n).last() == digit_char(n % 10));
        assert(n == (n / 10) * 10 + n % 10);
        assert(decimal(n).len() > 0);
        assert(digits_value(decimal(n)) == digits_value(decimal(n / 10)) * 10 + (n % 10));
    } else {
        assert(digit_char(n) as int == 48 + n);
        assert(decimal(n).drop_last() =~= Seq::<char>::empty());
        assert(digits_value(Seq::<char>::empty()) == 0);
    }
}

proof fn lemma_leading_zeros_value(k: nat, d: Seq<char>)
    ensures
        digits_value(Seq::new(k, |i: int| '0') + d) == digits_value(d),
    decreases d.len(), k,
{
    let z = Seq::new(k, |i: int| '0');
    if d.len() == 0 {
        assert(z + d =~= z);
        if k > 0 {
            assert(z.drop_last() =~= Seq::new((k - 1) as nat, |i: int| '0'));
            lemma_leading_zeros_value((k - 1) as nat, d);
            assert(Seq::new((k - 1) as nat, |i: int| '0') + d =~= Seq::new((k - 1) as nat, |i: int| '0'));
        }
    } else {
        assert((z + d).drop_last() =~= z + d.drop_last());
        lemma_leading_zeros_value(k, d.drop_last());
    }
}

proof fn lemma_zero_padded_value(n: nat, width: nat)
    ensures
        digits_value(zero_padded(n, width)) == n,
{
    lemma_decimal_value(n);
    let d = decimal(n);
    if d.len() < width {
        lemma_leading_zeros_value((width - d.len()) as nat, d);
    }
}

/// Every frame below 1000 is named with exactly three digits: its hundreds,
/// tens and units, so the frames match the pattern `stem%03d.png`.
pub proof fn lemma_frame_name_three_digits(stem: Seq<char>, frame: nat)
    requires
        frame < 1000,
    ensures
        frame_file_name(stem, frame) == stem + seq![
            digit_char(frame / 100),
            digit_char(frame / 10 % 10),
            digit_char(frame % 10),
        ] + png_suffix(),
{
    lemma_decimal_len(frame);
    let d = decimal(frame);
    let digits = seq![digit_char(frame / 100), digit_char(frame / 10 % 10), digit_char(frame % 10)];
    if frame < 10 {
        assert(d =~= seq![digit_char(frame)]);
    } else if frame < 100 {
        assert(decimal(frame / 10) =~= seq![digit_char(frame / 10)]);
    } else {
        assert(decimal(frame / 100) =~= seq![digit_char(frame / 100)]);
        assert(decimal(frame / 10) =~= seq![digit_char(frame / 100), digit_char(frame / 10 % 10)]);
    }
    assert(zero_padded(frame, 3) =~= digits);
}

/// Distinct frames of one scene get distinct file names, so no frame
/// overwrites another.
pub proof fn lemma_frame_names_distinct(stem: Seq<char>, a: nat, b: nat)
    requires
        a != b,
    ensures
        frame_file_name(stem, a) != frame_file_name(stem, b),
{
    let na = frame_file_name(stem, a);
    let nb = frame_file_name(stem, b);
    if na == nb {
        let pa = zero_padded(a, 3);
        let pb = zero_padded(b, 3);
        assert(na.len() == stem.len() + pa.len() + png_suffix().len());
        assert(nb.len() == stem.len() + pb.len() + png_suffix().len());
        assert(pa.len() == pb.len());
        assert(pa =~= na.subrange(stem.len() as int, (stem.len() + pa.len()) as int));
        assert(pb =~= nb.subrange(stem.len() as int, (stem.len() + pb.len()) as int));
        lemma_zero_padded_value(a, 3);
        lemma_zero_padded_value(b, 3);
    }
}

} // verus!
