//! A hexadecimal dump of bytes, sixteen to a row, with the printable
//! characters beside them.
use vstd::prelude::*;

verus! {

/// Relies on `String::push`: appends `c` to `s`.
#[verifier::external_body]
fn push_char(s: &mut String, c: char)
    ensures
        final(s)@ == old(s)@.push(c),
{
    s.push(c)
}

/// The upper-case hexadecimal digit of `d`, below sixteen.
pub open spec fn hex_digit(d: nat) -> char {
    if d < 10 {
        (d + 48) as char
    } else {
        (d + 55) as char
    }
}

/// The hexadecimal digits of `n`, without leading zeros.
pub open spec fn hex_digits(n: nat) -> Seq<char>
    decreases n,
{
    if n < 16 {
        seq![hex_digit(n)]
    } else {
        hex_digits(n / 16).push(hex_digit(n % 16))
    }
}

/// `s` written `k` times.
pub open spec fn repeat(s: Seq<char>, k: nat) -> Seq<char>
    decreases k,
{
    if k == 0 {
        Seq::empty()
    } else {
        repeat(s, (k - 1) as nat) + s
    }
}

/// The hexadecimal digits of `n`, with leading zeros to at least `w` digits.
pub open spec fn hex_width(n: nat, w: nat) -> Seq<char> {
    let d = hex_digits(n);
    if d.len() >= w {
        d
    } else {
        repeat("0"@, (w - d.len()) as nat) + d
    }
}

/// How the byte `b` is shown beside the digits: itself where it is a
/// printable ASCII character other than a space, else a dot.
pub open spec fn shown(b: u8) -> char {
    if 0x21 <= b && b <= 0x7E {
        b as char
    } else {
        '.'
    }
}

/// The bytes `s[from..from + n]` as they are shown.
pub open spec fn shown_run(s: Seq<u8>, from: int, n: int) -> Seq<char>
    decreases n,
{
    if n <= 0 {
        Seq::empty()
    } else {
        shown_run(s, from, n - 1).push(shown(s[from + n - 1]))
    }
}

/// The column headings and the rule beneath them.
pub open spec fn dump_header() -> Seq<char> {
    "     | +0 +1 +2 +3 +4 +5 +6 +7  +8 +9 +A +B +C +D +E +F"@ + " | 0123456789ABCDEF"@ + "\n"@
        + "-----+-------------------------------------------------"@ + "-+-----------------"@
}

/// The text for byte `i` of `s`: a new row with its offset before every
/// sixteenth byte, a gap before the ninth of a row, the two digits, and the
/// shown characters after the last of a row.
pub open spec fn cell(s: Seq<u8>, i: int) -> Seq<char> {
    let c = i % 16;
    (if c == 0 {
        "\n"@ + hex_width(i as nat, 4) + " |"@
    } else {
        Seq::empty()
    }) + (if c == 8 {
        " "@
    } else {
        Seq::empty()
    }) + " "@ + hex_width(s[i] as nat, 2) + (if c == 15 {
        " | "@ + shown_run(s, i - 15, 16)
    } else {
        Seq::empty()
    })
}

/// The text for the first `n` bytes of `s`.
pub open spec fn cells(s: Seq<u8>, n: int) -> Seq<char>
    decreases n,
{
    if n <= 0 {
        Seq::empty()
    } else {
        cells(s, n - 1) + cell(s, n - 1)
    }
}

/// The end of a last, partial row: blanks in place of the missing digits,
/// then the shown characters of the row.
pub open spec fn dump_tail(s: Seq<u8>) -> Seq<char> {
    let rem = s.len() % 16;
    if rem == 0 {
        Seq::empty()
    } else {
        repeat("   "@, (16 - rem) as nat) + (if rem <= 9 {
            " "@
        } else {
            Seq::empty()
        }) + " | "@ + shown_run(s, s.len() - rem, rem as int)
    }
}

/// The whole dump of `s`.
pub open spec fn hex_dump_text(s: Seq<u8>) -> Seq<char> {
    dump_header() + cells(s, s.len() as int) + dump_tail(s) + "\n"@
}

fn hex_digit_exec(d: u32) -> (r: char)
    requires
        d < 16,
    ensures
        r == hex_digit(d as nat),
{
    if d < 10 {
        ((d + 48) as u8) as char
    } else {
        ((d + 55) as u8) as char
    }
}

fn push_hex_digits(out: &mut String, n: usize)
    ensures
        final(out)@ == old(out)@ + hex_digits(n as nat),
    decreases n,
{
    if n >= 16 {
        push_hex_digits(out, n / 16);
    }
    push_char(out, hex_digit_exec((n % 16) as u32));
    proof {
        if n < 16 {
            assert(hex_digits(n as nat) == seq![hex_digit(n as nat)]);
        }
    }
    assert(final(out)@ =~= old(out)@ + hex_digits(n as nat));
}

proof fn lemma_hex_digits_len(n: nat)
    ensures
        hex_digits(n).len() >= 1,
        n < 16 ==> hex_digits(n).len() == 1,
        n < 256 ==> hex_digits(n).len() <= 2,
    decreases n,
{
    if n >= 16 {
        lemma_hex_digits_len(n / 16);
    }
}

/// Appends the hexadecimal digits of `n`, with leading zeros to `w` digits.
fn push_hex_width(out: &mut String, n: usize, w: usize)
    ensures
        final(out)@ == old(out)@ + hex_width(n as nat, w as nat),
{
    let mut digits = String::new();
    push_hex_digits(&mut digits, n);
    let len = digits.as_str().unicode_len();
    assert(digits@ =~= hex_digits(n as nat));
    if len < w {
        let mut k: usize = 0;
        while k < w - len
            invariant
                len < w,
                k <= w - len,
                out@ == old(out)@ + repeat("0"@, k as nat),
            decreases w - len - k,
        {
            out.append("0");
            k = k + 1;
        }
    }
    out.append(digits.as_str());
    assert(final(out)@ =~= old(out)@ + hex_width(n as nat, w as nat));
}

fn shown_exec(b: u8) -> (r: char)
    ensures
        r == shown(b),
{
    if 0x21 <= b && b <= 0x7E {
        b as char
    } else {
        '.'
    }
}

fn push_shown_run(out: &mut String, s: &Vec<u8>, from: usize, n: usize)
    requires
        from + n <= s.len(),
    ensures
        final(out)@ == old(out)@ + shown_run(s@, from as int, n as int),
{
    let mut k: usize = 0;
    while k < n
        invariant
            from + n <= s.len(),
            k <= n,
            out@ == old(out)@ + shown_run(s@, from as int, k as int),
        decreases n - k,
    {
        push_char(out, shown_exec(s[from + k]));
        k = k + 1;
        assert(out@ =~= old(out)@ + shown_run(s@, from as int, k as int));
    }
}

/// The dump of `s`: a heading, then one row of up to sixteen bytes for each
/// sixteen, each row with its offset, the bytes' two-digit values and the
/// bytes shown as characters.
pub fn hex_dump(s: &Vec<u8>) -> (r: String)
    ensures
        r@ == hex_dump_text(s@),
{
    let mut out = String::new();
    out.append("     | +0 +1 +2 +3 +4 +5 +6 +7  +8 +9 +A +B +C +D +E +F");
    out.append(" | 0123456789ABCDEF");
    out.append("\n");
    out.append("-----+-------------------------------------------------");
    out.append("-+-----------------");
    assert(out@ =~= dump_header());
    let mut i: usize = 0;
    while i < s.len()
        invariant
            i <= s.len(),
            out@ == dump_header() + cells(s@, i as int),
        decreases s.len() - i,
    {
        let ghost before = out@;
        let c = i % 16;
        if c == 0 {
            out.append("\n");
            push_hex_width(&mut out, i, 4);
            out.append(" |");
        }
        if c == 8 {
            out.append(" ");
        }
        out.append(" ");
        push_hex_width(&mut out, s[i] as usize, 2);
        if c == 15 {
            out.append(" | ");
            push_shown_run(&mut out, s, i - 15, 16);
        }
        assert(out@ =~= before + cell(s@, i as int));
        i = i + 1;
    }
    let rem = s.len() % 16;
    let ghost body = out@;
    if rem > 0 {
        let mut k: usize = 0;
        while k < 16 - rem
            invariant
                0 < rem < 16,
                k <= 16 - rem,
                out@ == body + repeat("   "@, k as nat),
            decreases 16 - rem - k,
        {
            out.append("   ");
            k = k + 1;
        }
        if rem <= 9 {
            out.append(" ");
        }
        out.append(" | ");
        push_shown_run(&mut out, s, s.len() - rem, rem);
    }
    assert(out@ =~= body + dump_tail(s@));
    out.append("\n");
    out
}

} // verus!
