//! The gallery listing: which file names count as images, and how a list
//! of image names is rendered as a quoted, comma-separated string.

use crate::textual::chars_of;
use vstd::prelude::*;
use vstd::string::StringExecFns;
use vstd::string::StrSliceExecFns;

verus! {

/// A list of image file names, newest first.
pub struct ImageList {
    pub images: Vec<String>,
}

/// A name wrapped in double quotes.
pub open spec fn quoted(s: Seq<char>) -> Seq<char> {
    "\""@ + s + "\""@
}

/// The names each quoted, joined with a comma and a space.
pub open spec fn comma_separated(items: Seq<Seq<char>>) -> Seq<char>
    decreases items.len(),
{
    if items.len() == 0 {
        Seq::empty()
    } else if items.len() == 1 {
        quoted(items[0])
    } else {
        comma_separated(items.drop_last()) + ", "@ + quoted(items.last())
    }
}

impl ImageList {
    /// The images as a quoted, comma-separated list.
    pub fn to_comma_separated(&self) -> (r: String)
        ensures
            r@ == comma_separated(self.images.deep_view()),
    {
        let ghost dv = self.images.deep_view();
        let mut out = String::new();
        let n = self.images.len();
        let mut i: usize = 0;
        proof {
            assert(dv.take(0) =~= Seq::<Seq<char>>::empty());
            assert(out@ =~= comma_separated(dv.take(0)));
        }
        while i < n
            invariant
                i <= n,
                n == self.images@.len(),
                dv == self.images.deep_view(),
                dv.len() == n,
                out@ == comma_separated(dv.take(i as int)),
            decreases n - i,
        {
            proof {
                assert(dv[i as int] =~= self.images@[i as int]@);
                assert(dv.take(i + 1).drop_last() =~= dv.take(i as int));
                assert(dv.take(i + 1).last() == dv[i as int]);
            }
            if i > 0 {
                out.append(", ");
            }
            out.append("\"");
            out.append(self.images[i].as_str());
            out.append("\"");
            i = i + 1;
        }
        proof {
            assert(dv.take(n as int) =~= dv);
        }
        out
    }
}

/// Index of the last `'.'` in a name, or -1 when there is none.
pub open spec fn last_dot(s: Seq<char>) -> int
    decreases s.len(),
{
    if s.len() == 0 {
        -1
    } else if s.last() == '.' {
        s.len() - 1
    } else {
        last_dot(s.drop_last())
    }
}

/// The extension of a file name: what follows the last dot, provided that
/// dot is neither absent nor the leading character (a leading dot marks a
/// hidden file, not an extension).
pub open spec fn spec_extension(s: Seq<char>) -> Option<Seq<char>> {
    let i = last_dot(s);
    if i <= 0 {
        None
    } else {
        Some(s.subrange(i + 1, s.len() as int))
    }
}

/// ASCII lowercasing of one character.
pub open spec fn ascii_lower_char(c: char) -> char {
    if 'A' <= c <= 'Z' {
        ((c as u8) + 32) as char
    } else {
        c
    }
}

/// ASCII lowercasing of a whole sequence.
pub open spec fn lower_seq(s: Seq<char>) -> Seq<char> {
    s.map_values(|c: char| ascii_lower_char(c))
}

/// Whether a file name carries one of the recognized raster image
/// extensions, compared case-insensitively.
pub open spec fn spec_is_image_file(name: Seq<char>) -> bool {
    match spec_extension(name) {
        None => false,
        Some(e) => {
            let l = lower_seq(e);
            ||| l == seq!['j', 'p', 'g']
            ||| l == seq!['j', 'p', 'e', 'g']
            ||| l == seq!['p', 'n', 'g']
            ||| l == seq!['g', 'i', 'f']
            ||| l == seq!['w', 'e', 'b', 'p']
        },
    }
}

/// Whether `low` is exactly the three given characters.
fn eq3(low: &Vec<char>, a: char, b: char, c: char) -> (r: bool)
    ensures
        r == (low@ == seq![a, b, c]),
{
    let r = low.len() == 3 && low[0] == a && low[1] == b && low[2] == c;
    proof {
        if r {
            assert(low@ =~= seq![a, b, c]);
        }
    }
    r
}

/// Whether `low` is exactly the four given characters.
fn eq4(low: &Vec<char>, a: char, b: char, c: char, d: char) -> (r: bool)
    ensures
        r == (low@ == seq![a, b, c, d]),
{
    let r = low.len() == 4 && low[0] == a && low[1] == b && low[2] == c
        && low[3] == d;
    proof {
        if r {
            assert(low@ =~= seq![a, b, c, d]);
        }
    }
    r
}

/// Whether a file name (its final path component) names a raster image,
/// by its extension, case-insensitively.
pub fn is_image_file(name: &str) -> (r: bool)
    ensures
        r == spec_is_image_file(name@),
{
    let cs = chars_of(name);
    let n = cs.len();
    let mut j: usize = n;
    proof {
        assert(cs@.take(n as int) =~= cs@);
    }
    while j > 0 && cs[j - 1] != '.'
        invariant
            j <= n,
            n == cs@.len(),
            cs@ == name@,
            last_dot(cs@) == last_dot(cs@.take(j as int)),
        decreases j,
    {
        proof {
            assert(cs@.take(j as int).drop_last() =~= cs@.take(j - 1));
            assert(cs@.take(j as int).last() == cs@[j - 1]);
        }
        j = j - 1;
    }
    if j == 0 {
        proof {
            assert(cs@.take(0) =~= Seq::<char>::empty());
        }
        return false;
    }
    proof {
        assert(cs@.take(j as int).last() == cs@[j - 1]);
        assert(last_dot(cs@) == j - 1);
    }
    if j == 1 {
        return false;
    }
    let mut low: Vec<char> = Vec::new();
    let mut k: usize = j;
    proof {
        assert(cs@.subrange(j as int, j as int) =~= Seq::<char>::empty());
        assert(low@ =~= lower_seq(cs@.subrange(j as int, j as int)));
    }
    while k < n
        invariant
            j <= k <= n,
            n == cs@.len(),
            cs@ == name@,
            low@ == lower_seq(cs@.subrange(j as int, k as int)),
        decreases n - k,
    {
        let c = cs[k];
        let lc: char = if c >= 'A' && c <= 'Z' {
            ((c as u8) + 32) as char
        } else {
            c
        };
        low.push(lc);
        proof {
            assert(cs@.subrange(j as int, k + 1) =~= cs@.subrange(j as int, k as int).push(
                cs@[k as int],
            ));
            assert(low@ =~= lower_seq(cs@.subrange(j as int, k + 1)));
        }
        k = k + 1;
    }
    proof {
        assert(spec_extension(name@) == Some(cs@.subrange(j as int, n as int)));
    }
    eq3(&low, 'j', 'p', 'g') || eq4(&low, 'j', 'p', 'e', 'g') || eq3(&low, 'p', 'n', 'g') || eq3(
        &low,
        'g',
        'i',
        'f',
    ) || eq4(&low, 'w', 'e', 'b', 'p')
}

/// The image names among `names`, in order.
pub open spec fn keep_images(names: Seq<Seq<char>>) -> Seq<Seq<char>>
    decreases names.len(),
{
    if names.len() == 0 {
        Seq::empty()
    } else {
        let rest = keep_images(names.drop_last());
        if spec_is_image_file(names.last()) {
            rest.push(names.last())
        } else {
            rest
        }
    }
}

/// The image names among `names`, in reverse order — newest last in the
/// walk becomes first in the gallery.
pub open spec fn image_names(names: Seq<Seq<char>>) -> Seq<Seq<char>> {
    keep_images(names).reverse()
}

/// Keeps the image files among the walked file names and reverses them.
pub fn collect_image_list(names: &Vec<String>) -> (l: ImageList)
    ensures
        l.images.deep_view() == image_names(names.deep_view()),
{
    let ghost dv = names.deep_view();
    let n = names.len();
    let mut kept: Vec<String> = Vec::new();
    let mut i: usize = 0;
    proof {
        assert(dv.take(0) =~= Seq::<Seq<char>>::empty());
        assert(kept.deep_view() =~~= keep_images(dv.take(0)));
    }
    while i < n
        invariant
            i <= n,
            n == names@.len(),
            dv == names.deep_view(),
            dv.len() == n,
            kept.deep_view() == keep_images(dv.take(i as int)),
        decreases n - i,
    {
        let ghost pre = kept.deep_view();
        proof {
            assert(dv[i as int] =~= names@[i as int]@);
            assert(dv.take(i + 1).drop_last() =~= dv.take(i as int));
            assert(dv.take(i + 1).last() == dv[i as int]);
        }
        if is_image_file(names[i].as_str()) {
            kept.push(names[i].clone());
            proof {
                assert(kept.deep_view() =~~= pre.push(dv[i as int]));
            }
        }
        i = i + 1;
    }
    proof {
        assert(dv.take(n as int) =~= dv);
    }
    let m = kept.len();
    let mut images: Vec<String> = Vec::new();
    let mut r: usize = 0;
    while r < m
        invariant
            r <= m,
            m == kept@.len(),
            kept.deep_view() == keep_images(dv),
            images@.len() == r,
            forall|q: int|
                0 <= q < r ==> #[trigger] images.deep_view()[q] == kept.deep_view()[m - 1 - q],
        decreases m - r,
    {
        let ghost pre = images.deep_view();
        images.push(kept[m - 1 - r].clone());
        proof {
            assert(kept.deep_view()[m - 1 - r] =~= kept@[m - 1 - r]@);
            assert(images.deep_view() =~~= pre.push(kept.deep_view()[m - 1 - r]));
        }
        r = r + 1;
    }
    proof {
        assert(images.deep_view() =~~= keep_images(dv).reverse());
    }
    ImageList { images }
}

/// The walked file names, filtered to images, reversed, and rendered as a
/// quoted, comma-separated list.
pub fn to_js_list(names: &Vec<String>) -> (r: String)
    ensures
        r@ == comma_separated(image_names(names.deep_view())),
{
    let list = collect_image_list(names);
    list.to_comma_separated()
}

/// The character of one decimal digit.
pub open spec fn digit_char(d: int) -> char {
    if d == 0 {
        '0'
    } else if d == 1 {
        '1'
    } else if d == 2 {
        '2'
    } else if d == 3 {
        '3'
    } else if d == 4 {
        '4'
    } else if d == 5 {
        '5'
    } else if d == 6 {
        '6'
    } else if d == 7 {
        '7'
    } else if d == 8 {
        '8'
    } else {
        '9'
    }
}

/// The decimal digits of a nonnegative number, most significant first.
pub open spec fn dec_digits(n: int) -> Seq<char>
    decreases n,
{
    if n < 10 {
        seq![digit_char(n)]
    } else {
        dec_digits(n / 10).push(digit_char(n % 10))
    }
}

/// The file name a saved image gets: a fixed stem, the timestamp, and the
/// text's length, both in decimal.
pub open spec fn spec_image_file_name(ts: int, len: int) -> Seq<char> {
    "haiku_"@ + dec_digits(ts) + "_"@ + dec_digits(len) + ".webp"@
}

/// Appends one decimal digit.
fn append_digit(out: &mut String, d: u64)
    requires
        d < 10,
    ensures
        final(out)@ == old(out)@ + seq![digit_char(d as int)],
{
    if d == 0 {
        out.append("0");
        proof {
            reveal_strlit("0");
            assert("0"@ =~= seq![digit_char(0)]);
        }
    } else if d == 1 {
        out.append("1");
        proof {
            reveal_strlit("1");
            assert("1"@ =~= seq![digit_char(1)]);
        }
    } else if d == 2 {
        out.append("2");
        proof {
            reveal_strlit("2");
            assert("2"@ =~= seq![digit_char(2)]);
        }
    } else if d == 3 {
        out.append("3");
        proof {
            reveal_strlit("3");
            assert("3"@ =~= seq![digit_char(3)]);
        }
    } else if d == 4 {
        out.append("4");
        proof {
            reveal_strlit("4");
            assert("4"@ =~= seq![digit_char(4)]);
        }
    } else if d == 5 {
        out.append("5");
        proof {
            reveal_strlit("5");
            assert("5"@ =~= seq![digit_char(5)]);
        }
    } else if d == 6 {
        out.append("6");
        proof {
            reveal_strlit("6");
            assert("6"@ =~= seq![digit_char(6)]);
        }
    } else if d == 7 {
        out.append("7");
        proof {
            reveal_strlit("7");
            assert("7"@ =~= seq![digit_char(7)]);
        }
    } else if d == 8 {
        out.append("8");
        proof {
            reveal_strlit("8");
            assert("8"@ =~= seq![digit_char(8)]);
        }
    } else {
        out.append("9");
        proof {
            reveal_strlit("9");
            assert("9"@ =~= seq![digit_char(9)]);
        }
    }
}

/// The digit characters of a reversed digit buffer, back to front.
spec fn rev_chars(rv: Seq<u8>) -> Seq<char> {
    Seq::new(rv.len(), |i: int| digit_char(rv[rv.len() - 1 - i] as int))
}

/// Appends a nonnegative number in decimal.
fn append_decimal(out: &mut String, n: u64)
    ensures
        final(out)@ == old(out)@ + dec_digits(n as int),
{
    let mut rev: Vec<u8> = Vec::new();
    let mut m: u64 = n;
    proof {
        assert(rev_chars(rev@) =~= Seq::<char>::empty());
        assert(dec_digits(n as int) =~= dec_digits(m as int) + rev_chars(rev@));
    }
    while m >= 10
        invariant
            dec_digits(n as int) == dec_digits(m as int) + rev_chars(rev@),
            forall|i: int| 0 <= i < rev@.len() ==> #[trigger] rev@[i] < 10,
        decreases m,
    {
        let ghost pre = rev@;
        let d: u64 = m % 10;
        rev.push(d as u8);
        proof {
            assert(rev_chars(rev@) =~= seq![digit_char(d as int)] + rev_chars(pre));
            assert(dec_digits(m as int) == dec_digits(m as int / 10).push(
                digit_char(m as int % 10),
            ));
            assert(dec_digits(m as int / 10).push(digit_char(m as int % 10)) + rev_chars(pre)
                =~= dec_digits(m as int / 10) + (seq![digit_char(d as int)] + rev_chars(pre)));
        }
        m = m / 10;
    }
    let ghost whole = dec_digits(n as int);
    proof {
        assert(whole == seq![digit_char(m as int)] + rev_chars(rev@));
    }
    append_digit(out, m);
    let len = rev.len();
    let mut i: usize = 0;
    proof {
        assert(out@ =~= old(out)@ + whole.take(1));
    }
    while i < len
        invariant
            i <= len,
            len == rev@.len(),
            forall|q: int| 0 <= q < rev@.len() ==> #[trigger] rev@[q] < 10,
            whole == dec_digits(n as int),
            whole == seq![digit_char(m as int)] + rev_chars(rev@),
            out@ == old(out)@ + whole.take(1 + i as int),
        decreases len - i,
    {
        let d = rev[len - 1 - i];
        append_digit(out, d as u64);
        proof {
            assert(whole.take(1 + (i + 1) as int) =~= whole.take(1 + i as int).push(
                whole[1 + i as int],
            ));
            assert(whole[1 + i as int] == digit_char(rev@[len - 1 - i] as int));
        }
        i = i + 1;
    }
    proof {
        assert(whole.take(1 + len as int) =~= whole);
    }
}

/// The file name for a saved image: the fixed stem, the timestamp and the
/// text length in decimal, and the WebP suffix.
pub fn image_file_name(timestamp: u64, text_len: u64) -> (r: String)
    ensures
        r@ == spec_image_file_name(timestamp as int, text_len as int),
{
    let mut out = String::new();
    out.append("haiku_");
    append_decimal(&mut out, timestamp);
    out.append("_");
    append_decimal(&mut out, text_len);
    out.append(".webp");
    out
}

} // verus!
