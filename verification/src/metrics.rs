//! Fixed-point model of a scaled font: ascent and descent, the
//! character-to-glyph table with per-glyph advances, and the kerning table.
//! All distances are in subpixel units of 1/64 of a device pixel.

use vstd::prelude::*;

verus! {

/// Subpixel units per device pixel.
pub const SUBPIXEL: i64 = 64;

/// Bound on the magnitude of any single stored metric, in subpixel units
/// (1 << 20 subpixel units is 16384 device pixels).
pub const MAX_METRIC: i64 = 0x10_0000;

/// One entry of the character-to-glyph table: a character, the glyph it maps
/// to, and that glyph's horizontal advance in subpixel units.
pub struct GlyphEntry {
    pub code: char,
    pub glyph: u32,
    pub advance: i64,
}

/// A kerning adjustment applied between two adjacent glyphs, in subpixel
/// units.
pub struct KernPair {
    pub left: u32,
    pub right: u32,
    pub adjust: i64,
}

/// An immutable scaled font resource: vertical metrics, glyph table and
/// kerning table. Characters absent from the table fall back to glyph 0 (the
/// notdef glyph) with `notdef_advance`.
pub struct FontMetrics {
    pub ascent: i64,
    pub descent: i64,
    pub notdef_advance: i64,
    pub glyphs: Vec<GlyphEntry>,
    pub kerning: Vec<KernPair>,
}

impl FontMetrics {
    /// Every stored metric is bounded in magnitude, the ascent reaches up
    /// (nonnegative) and the descent reaches down (nonpositive).
    pub open spec fn wf(&self) -> bool {
        &&& 0 <= self.ascent <= MAX_METRIC
        &&& -MAX_METRIC <= self.descent <= 0
        &&& -MAX_METRIC <= self.notdef_advance <= MAX_METRIC
        &&& forall|i: int|
            0 <= i < self.glyphs@.len() ==> -MAX_METRIC <= #[trigger] self.glyphs@[i].advance
                <= MAX_METRIC
        &&& forall|i: int|
            0 <= i < self.kerning@.len() ==> -MAX_METRIC <= #[trigger] self.kerning@[i].adjust
                <= MAX_METRIC
    }
}

/// First entry of the glyph table that maps `c`, if any.
pub open spec fn glyph_lookup(entries: Seq<GlyphEntry>, c: char) -> Option<GlyphEntry>
    decreases entries.len(),
{
    if entries.len() == 0 {
        None
    } else if entries[0].code == c {
        Some(entries[0])
    } else {
        glyph_lookup(entries.drop_first(), c)
    }
}

/// Glyph id that `c` maps to; 0 (notdef) when the table does not map it.
pub open spec fn glyph_id_of(fm: FontMetrics, c: char) -> u32 {
    match glyph_lookup(fm.glyphs@, c) {
        Some(e) => e.glyph,
        None => 0,
    }
}

/// Horizontal advance of the glyph that `c` maps to, in subpixel units;
/// the notdef advance when the table does not map it.
pub open spec fn advance_of(fm: FontMetrics, c: char) -> int {
    match glyph_lookup(fm.glyphs@, c) {
        Some(e) => e.advance as int,
        None => fm.notdef_advance as int,
    }
}

/// First kerning entry for the glyph pair `(l, r)`, if any.
pub open spec fn kern_lookup(pairs: Seq<KernPair>, l: u32, r: u32) -> Option<KernPair>
    decreases pairs.len(),
{
    if pairs.len() == 0 {
        None
    } else if pairs[0].left == l && pairs[0].right == r {
        Some(pairs[0])
    } else {
        kern_lookup(pairs.drop_first(), l, r)
    }
}

/// Kerning adjustment between adjacent glyphs `l` and `r`, in subpixel
/// units; 0 when the pair is not in the table.
pub open spec fn kern_of(fm: FontMetrics, l: u32, r: u32) -> int {
    match kern_lookup(fm.kerning@, l, r) {
        Some(p) => p.adjust as int,
        None => 0,
    }
}

/// Advance width of a whole line, in subpixel units: the sum over its
/// characters of the glyph advance, plus the kerning adjustment between each
/// adjacent glyph pair (the first glyph has no preceding kerning term).
pub open spec fn line_width(fm: FontMetrics, s: Seq<char>) -> int
    decreases s.len(),
{
    if s.len() == 0 {
        0
    } else {
        let kern = if s.len() >= 2 {
            kern_of(fm, glyph_id_of(fm, s[s.len() - 2]), glyph_id_of(fm, s.last()))
        } else {
            0
        };
        line_width(fm, s.drop_last()) + advance_of(fm, s.last()) + kern
    }
}

/// A well-formed font bounds the width of every line linearly in its length.
pub proof fn lemma_line_width_bound(fm: FontMetrics, s: Seq<char>)
    requires
        fm.wf(),
    ensures
        -2 * MAX_METRIC * s.len() <= line_width(fm, s) <= 2 * MAX_METRIC * s.len(),
    decreases s.len(),
{
    if s.len() > 0 {
        lemma_line_width_bound(fm, s.drop_last());
        lemma_advance_bound(fm, s.last());
        if s.len() >= 2 {
            lemma_kern_bound(fm, glyph_id_of(fm, s[s.len() - 2]), glyph_id_of(fm, s.last()));
        }
        assert(2 * MAX_METRIC * (s.len() as int) == 2 * MAX_METRIC * (s.len() - 1) + 2
            * MAX_METRIC) by (nonlinear_arith);
        assert(-2 * MAX_METRIC * (s.len() as int) == -2 * MAX_METRIC * (s.len() - 1) + -2
            * MAX_METRIC) by (nonlinear_arith);
    }
}

proof fn lemma_glyph_lookup_in_table(entries: Seq<GlyphEntry>, c: char)
    ensures
        glyph_lookup(entries, c) matches Some(e) ==> entries.contains(e),
    decreases entries.len(),
{
    if entries.len() > 0 && entries[0].code != c {
        lemma_glyph_lookup_in_table(entries.drop_first(), c);
    }
}

proof fn lemma_advance_bound(fm: FontMetrics, c: char)
    requires
        fm.wf(),
    ensures
        -MAX_METRIC <= advance_of(fm, c) <= MAX_METRIC,
{
    lemma_glyph_lookup_in_table(fm.glyphs@, c);
}

proof fn lemma_kern_lookup_in_table(pairs: Seq<KernPair>, l: u32, r: u32)
    ensures
        kern_lookup(pairs, l, r) matches Some(p) ==> pairs.contains(p),
    decreases pairs.len(),
{
    if pairs.len() > 0 && !(pairs[0].left == l && pairs[0].right == r) {
        lemma_kern_lookup_in_table(pairs.drop_first(), l, r);
    }
}

proof fn lemma_kern_bound(fm: FontMetrics, l: u32, r: u32)
    requires
        fm.wf(),
    ensures
        -MAX_METRIC <= kern_of(fm, l, r) <= MAX_METRIC,
{
    lemma_kern_lookup_in_table(fm.kerning@, l, r);
}

/// Glyph id and advance of `c` under the font's table, with the notdef
/// fallback for unmapped characters.
pub fn glyph_advance(fm: &FontMetrics, c: char) -> (r: (u32, i64))
    ensures
        r.0 == glyph_id_of(*fm, c),
        r.1 as int == advance_of(*fm, c),
{
    let n = fm.glyphs.len();
    let mut i: usize = 0;
    proof {
        assert(fm.glyphs@.skip(0) =~= fm.glyphs@);
    }
    while i < n
        invariant
            i <= n,
            n == fm.glyphs@.len(),
            glyph_lookup(fm.glyphs@, c) == glyph_lookup(fm.glyphs@.skip(i as int), c),
        decreases n - i,
    {
        let e = &fm.glyphs[i];
        assert(fm.glyphs@.skip(i as int)[0] == fm.glyphs@[i as int]);
        if e.code == c {
            return (e.glyph, e.advance);
        }
        assert(fm.glyphs@.skip(i as int).drop_first() =~= fm.glyphs@.skip(i + 1));
        i = i + 1;
    }
    assert(fm.glyphs@.skip(n as int) =~= Seq::<GlyphEntry>::empty());
    (0, fm.notdef_advance)
}

/// Kerning adjustment between adjacent glyphs `l` and `r`; 0 when the table
/// has no entry for the pair.
pub fn kern_adjust(fm: &FontMetrics, l: u32, r: u32) -> (k: i64)
    ensures
        k as int == kern_of(*fm, l, r),
{
    let n = fm.kerning.len();
    let mut i: usize = 0;
    proof {
        assert(fm.kerning@.skip(0) =~= fm.kerning@);
    }
    while i < n
        invariant
            i <= n,
            n == fm.kerning@.len(),
            kern_lookup(fm.kerning@, l, r) == kern_lookup(fm.kerning@.skip(i as int), l, r),
        decreases n - i,
    {
        let p = &fm.kerning[i];
        assert(fm.kerning@.skip(i as int)[0] == fm.kerning@[i as int]);
        if p.left == l && p.right == r {
            return p.adjust;
        }
        assert(fm.kerning@.skip(i as int).drop_first() =~= fm.kerning@.skip(i + 1));
        i = i + 1;
    }
    assert(fm.kerning@.skip(n as int) =~= Seq::<KernPair>::empty());
    0
}

/// Advance width of `line` in subpixel units, with kerning between adjacent
/// glyph pairs.
pub fn measure_line(fm: &FontMetrics, line: &Vec<char>) -> (w: i128)
    requires
        fm.wf(),
    ensures
        w as int == line_width(*fm, line@),
{
    let n = line.len();
    let mut total: i128 = 0;
    let mut prev: u32 = 0;
    let mut i: usize = 0;
    while i < n
        invariant
            i <= n,
            n == line@.len(),
            fm.wf(),
            total as int == line_width(*fm, line@.take(i as int)),
            -2 * (MAX_METRIC as int) * (i as int) <= total as int <= 2 * (MAX_METRIC as int) * (
            i as int),
            i > 0 ==> prev == glyph_id_of(*fm, line@[i - 1]),
        decreases n - i,
    {
        let c = line[i];
        let (g, adv) = glyph_advance(fm, c);
        let kern: i64 = if i > 0 {
            kern_adjust(fm, prev, g)
        } else {
            0
        };
        proof {
            lemma_advance_bound(*fm, c);
            if i > 0 {
                lemma_kern_bound(*fm, prev, g);
            }
            let pre = line@.take(i as int);
            let cur = line@.take(i + 1);
            assert(cur.drop_last() =~= pre);
            assert(cur.last() == line@[i as int]);
            if i > 0 {
                assert(cur[cur.len() - 2] == line@[i - 1]);
            }
            assert(2 * (MAX_METRIC as int) * ((i + 1) as int) == 2 * (MAX_METRIC as int) * (
            i as int) + 2 * (MAX_METRIC as int)) by (nonlinear_arith);
            assert(-2 * (MAX_METRIC as int) * ((i + 1) as int) == -2 * (MAX_METRIC as int) * (
            i as int) + -2 * (MAX_METRIC as int)) by (nonlinear_arith);
            assert(2 * (MAX_METRIC as int) * (i as int) <= 2 * (MAX_METRIC as int)
                * 0x1_0000_0000_0000_0000 && -2 * (MAX_METRIC as int) * (i as int) >= -2 * (
            MAX_METRIC as int) * 0x1_0000_0000_0000_0000) by (nonlinear_arith)
                requires
                    0 <= i <= 0x1_0000_0000_0000_0000 && MAX_METRIC == 0x10_0000,
            ;
        }
        total = total + adv as i128 + kern as i128;
        prev = g;
        i = i + 1;
    }
    proof {
        assert(line@.take(n as int) =~= line@);
    }
    total
}

} // verus!
