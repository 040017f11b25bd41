use vstd::string::StringSliceAdditionalSpecFns;
use vstd::prelude::*;

verus! {

/// The decimal digit character for a value below ten.
pub open spec fn spec_digit(d: int) -> char {
    if d == 0 {
        '0'
    } else if d == 1 {
        '1'
    } else if d == 2 {
        '2'
    } else if d == 3 {
        '3'
    } else if d == 4 {
        '4'
    } else if d == 5 {
        '5'
    } else if d == 6 {
        '6'
    } else if d == 7 {
        '7'
    } else if d == 8 {
        '8'
    } else {
        '9'
    }
}

/// The usual decimal rendering of a natural number, without leading
/// zeros (a single zero for zero itself).
pub open spec fn spec_decimal(n: int) -> Seq<char>
    decreases n,
{
    if n < 10 {
        seq![spec_digit(n)]
    } else {
        spec_decimal(n / 10).push(spec_digit(n % 10))
    }
}

fn digit_str(d: u64) -> (r: &'static str)
    requires
        d < 10,
    ensures
        r@ == seq![spec_digit(d as int)],
{
    let r: &'static str = if d == 0 {
        "0"
    } else if d == 1 {
        "1"
    } else if d == 2 {
        "2"
    } else if d == 3 {
        "3"
    } else if d == 4 {
        "4"
    } else if d == 5 {
        "5"
    } else if d == 6 {
        "6"
    } else if d == 7 {
        "7"
    } else if d == 8 {
        "8"
    } else {
        "9"
    };
    proof {
        reveal_strlit("0");
        reveal_strlit("1");
        reveal_strlit("2");
        reveal_strlit("3");
        reveal_strlit("4");
        reveal_strlit("5");
        reveal_strlit("6");
        reveal_strlit("7");
        reveal_strlit("8");
        reveal_strlit("9");
        assert(r@ =~= seq![spec_digit(d as int)]);
    }
    r
}

/// Render a number in decimal.
pub fn decimal(n: u64) -> (r: String)
    ensures
        r@ == spec_decimal(n as int),
    decreases n,
{
    if n < 10 {
        String::from_str(digit_str(n))
    } else {
        let mut s = decimal(n / 10);
        s.append(digit_str(n % 10));
        assert(s@ =~= spec_decimal(n as int));
        s
    }
}

/// A sequence of one character repeated.
pub open spec fn spec_repeat(c: char, n: int) -> Seq<char> {
    Seq::new(if n < 0 {
        0
    } else {
        n as nat
    }, |i: int| c)
}

/// A run of spaces.
pub fn spaces(n: usize) -> (r: String)
    ensures
        r@ == spec_repeat(' ', n as int),
{
    let mut s = String::new();
    let mut i: usize = 0;
    proof {
        reveal_strlit(" ");
    }
    while i < n
        invariant
            i <= n,
            s@ == spec_repeat(' ', i as int),
        decreases n - i,
    {
        s.append(" ");
        proof {
            reveal_strlit(" ");
            assert(s@ =~= spec_repeat(' ', i + 1));
        }
        i += 1;
    }
    s
}

/// A run of horizontal box-drawing characters.
pub fn rules(n: usize) -> (r: String)
    ensures
        r@ == spec_repeat('\u{2500}', n as int),
{
    let mut s = String::new();
    let mut i: usize = 0;
    while i < n
        invariant
            i <= n,
            s@ == spec_repeat('\u{2500}', i as int),
        decreases n - i,
    {
        s.append("\u{2500}");
        proof {
            reveal_strlit("\u{2500}");
            assert(s@ =~= spec_repeat('\u{2500}', i + 1));
        }
        i += 1;
    }
    s
}

/// The displayed length of a piece of text: the length of its byte
/// encoding, as the table layout measures it.
pub open spec fn blen(s: Seq<char>) -> int {
    vstd::utf8::encode_utf8(s).len() as usize as int
}

/// A value of the given displayed length centered in a column of the
/// given width: the slack is split evenly, the right side taking the
/// odd space.  A value wider than the column is not padded.
pub open spec fn spec_center(s: Seq<char>, len: int, width: int) -> Seq<char> {
    if len >= width {
        s
    } else {
        spec_repeat(' ', (width - len) / 2) + s + spec_repeat(
            ' ',
            width - len - (width - len) / 2,
        )
    }
}

/// A value of the given displayed length at the left edge of a column
/// of the given width.
pub open spec fn spec_left(s: Seq<char>, len: int, width: int) -> Seq<char> {
    if len >= width {
        s
    } else {
        s + spec_repeat(' ', width - len)
    }
}

/// Center a value in a column, taking the value's displayed length in
/// bytes, as the table layout does.
pub fn center(s: &str, width: usize) -> (r: String)
    ensures
        r@ == spec_center(s@, s.spec_bytes().len() as usize as int, width as int),
{
    let len = s.len();
    if len >= width {
        let mut r = String::new();
        r.append(s);
        assert(r@ =~= s@);
        r
    } else {
        let pad = width - len;
        let mut r = spaces(pad / 2);
        r.append(s);
        r.append(spaces(pad - pad / 2).as_str());
        assert(r@ =~= spec_center(s@, len as int, width as int));
        r
    }
}

/// Put a value at the left edge of a column, taking its displayed
/// length in bytes.
pub fn left(s: &str, width: usize) -> (r: String)
    ensures
        r@ == spec_left(s@, s.spec_bytes().len() as usize as int, width as int),
{
    let len = s.len();
    let mut r = String::new();
    r.append(s);
    if len < width {
        r.append(spaces(width - len).as_str());
    }
    assert(r@ =~= spec_left(s@, len as int, width as int));
    r
}

/// A nanosecond count rendered as seconds with three decimal places,
/// truncated.
pub open spec fn spec_seconds(nanos: int) -> Seq<char> {
    let frac = (nanos / 1000000) % 1000;
    spec_decimal(nanos / 1000000000) + seq![
        '.',
        spec_digit(frac / 100),
        spec_digit((frac / 10) % 10),
        spec_digit(frac % 10),
    ]
}

/// Render a nanosecond count as seconds with three decimal places.
pub fn seconds(nanos: u64) -> (r: String)
    ensures
        r@ == spec_seconds(nanos as int),
{
    let mut s = decimal(nanos / 1000000000);
    let frac = (nanos / 1000000) % 1000;
    s.append(".");
    s.append(digit_str(frac / 100));
    s.append(digit_str((frac / 10) % 10));
    s.append(digit_str(frac % 10));
    proof {
        reveal_strlit(".");
        assert(s@ =~= spec_seconds(nanos as int));
    }
    s
}

/// ANSI escape for bold bright green.
pub open spec fn green_code() -> Seq<char> {
    "\u{1b}[1;92m"@
}

/// ANSI escape for bold bright red.
pub open spec fn red_code() -> Seq<char> {
    "\u{1b}[1;91m"@
}

/// ANSI escape for bold bright yellow.
pub open spec fn yellow_code() -> Seq<char> {
    "\u{1b}[1;93m"@
}

/// A piece of text under a color, when coloring is on.
pub open spec fn spec_colored(code: Seq<char>, text: Seq<char>, colorize: bool) -> Seq<char> {
    if colorize {
        code + text + "\u{1b}[0m"@
    } else {
        text
    }
}

pub fn colored(code: &str, text: &str, colorize: bool) -> (r: String)
    ensures
        r@ == spec_colored(code@, text@, colorize),
{
    if colorize {
        let mut s = String::new();
        s.append(code);
        s.append(text);
        s.append("\u{1b}[0m");
        assert(s@ =~= spec_colored(code@, text@, true));
        s
    } else {
        String::from_str(text)
    }
}

/// Whether one byte sequence occurs contiguously inside another.
pub open spec fn bytes_contain(haystack: Seq<u8>, needle: Seq<u8>) -> bool {
    exists|i: int|
        0 <= i <= haystack.len() - needle.len() && #[trigger] haystack.subrange(
            i,
            i + needle.len(),
        ) == needle
}

/// Substring search, on the byte encodings of the two pieces of text.
pub fn str_contains(haystack: &str, needle: &str) -> (r: bool)
    ensures
        r == bytes_contain(haystack.spec_bytes(), needle.spec_bytes()),
{
    let hb = haystack.as_bytes();
    let nb = needle.as_bytes();
    let hn = hb.len();
    let nn = nb.len();
    if nn > hn {
        proof {
            assert(!bytes_contain(hb@, nb@));
        }
        return false;
    }
    if nn == 0 {
        proof {
            assert(bytes_contain(hb@, nb@)) by {
                assert(hb@.subrange(0, 0 + nb@.len() as int) =~= nb@);
            }
        }
        return true;
    }
    let mut i: usize = 0;
    while i <= hn - nn
        invariant
            hb@ == haystack.spec_bytes(),
            nb@ == needle.spec_bytes(),
            hn == hb@.len(),
            nn == nb@.len(),
            0 < nn <= hn,
            i <= hn - nn + 1,
            forall|p: int| 0 <= p < i ==> #[trigger] hb@.subrange(p, p + nn) != nb@,
        decreases hn - i,
    {
        let mut j: usize = 0;
        let mut matches = true;
        while j < nn
            invariant
                hb@ == haystack.spec_bytes(),
                nb@ == needle.spec_bytes(),
                hn == hb@.len(),
                nn == nb@.len(),
                i + nn <= hn,
                j <= nn,
                matches ==> forall|q: int| 0 <= q < j ==> hb@[i + q] == nb@[q],
                !matches ==> hb@.subrange(i as int, i + nn) != nb@,
            decreases nn - j,
        {
            if hb[i + j] != nb[j] {
                proof {
                    assert(hb@.subrange(i as int, i + nn)[j as int] != nb@[j as int]);
                }
                matches = false;
                j = nn;
            } else {
                j += 1;
            }
        }
        if matches {
            proof {
                assert(hb@.subrange(i as int, i + nn) =~= nb@);
            }
            return true;
        }
        i += 1;
    }
    proof {
        assert(!bytes_contain(hb@, nb@));
    }
    false
}

} // verus!
