use vstd::prelude::*;

use crate::raster::Image;
use crate::pixel::{clear, Pixel};

verus! {

/// The most colors a palette can hold, the transparent one included.
pub const MAX_COLORS: usize = 4;

/// A palette lists colors by identifier: it starts with the transparent color,
/// holds one to four colors, and none of them twice.
pub open spec fn valid_palette(p: Seq<Pixel>) -> bool {
    1 <= p.len() <= 4 && p[0] == clear() && p.no_duplicates()
}

/// The palette reached after scanning `s` in order: it starts as the transparent
/// color alone, and each color not yet in it is appended; `None` once a color
/// arrives when four are already taken.
pub open spec fn scan(s: Seq<Pixel>) -> Option<Seq<Pixel>>
    decreases s.len(),
{
    if s.len() == 0 {
        Some(seq![clear()])
    } else {
        match scan(s.drop_last()) {
            None => None,
            Some(p) => if p.contains(s.last()) {
                Some(p)
            } else if p.len() < 4 {
                Some(p.push(s.last()))
            } else {
                None
            },
        }
    }
}

/// Pixel `i` of `s` is the first one whose color does not fit in the palette.
pub open spec fn overflows_at(s: Seq<Pixel>, i: int) -> bool {
    0 <= i < s.len() && scan(s.take(i)) is Some && scan(s.take(i + 1)) is None
}

/// The identifier of color `c` in palette `p`: its position, or 0 when absent.
pub open spec fn color_id(p: Seq<Pixel>, c: Pixel) -> nat {
    if p.contains(c) {
        p.index_of(c) as nat
    } else {
        0
    }
}

/// Every palette that a scan reaches is valid.
pub proof fn lemma_scan_valid(s: Seq<Pixel>)
    ensures
        scan(s) matches Some(p) ==> valid_palette(p),
    decreases s.len(),
{
    if s.len() > 0 {
        lemma_scan_valid(s.drop_last());
        if let Some(p) = scan(s.drop_last()) {
            if !p.contains(s.last()) && p.len() < 4 {
                let q = p.push(s.last());
                assert forall|i: int, j: int|
                    0 <= i < q.len() && 0 <= j < q.len() && i != j implies q[i] != q[j] by {
                    if i == p.len() as int {
                        assert(p.contains(q[j]));
                    } else if j == p.len() as int {
                        assert(p.contains(q[i]));
                    }
                }
            }
        }
    }
}

/// Once a scan has failed, scanning further pixels cannot make it succeed.
pub proof fn lemma_scan_none_stays(s: Seq<Pixel>, k: int)
    requires
        0 <= k <= s.len(),
        scan(s.take(k)) is None,
    ensures
        scan(s) is None,
    decreases s.len() - k,
{
    if k < s.len() {
        assert(s.take(k + 1).drop_last() =~= s.take(k));
        lemma_scan_none_stays(s, k + 1);
    } else {
        assert(s.take(k) =~= s);
    }
}

/// The distinct colors of `s`, together with the transparent color.
pub open spec fn colors_of(s: Seq<Pixel>) -> Set<Pixel> {
    s.to_set().insert(clear())
}

/// A scan succeeds exactly when the pixels, together with the transparent
/// color, have at most four distinct colors; its palette then holds exactly
/// those colors, each once.
pub proof fn law_scan_fits_iff_at_most_four(s: Seq<Pixel>)
    ensures
        colors_of(s).finite(),
        scan(s) is Some <==> colors_of(s).len() <= 4,
        scan(s) matches Some(p) ==> p.to_set() == colors_of(s) && p.len() == colors_of(s).len(),
    decreases s.len(),
{
    broadcast use vstd::seq_lib::seq_to_set_is_finite;

    lemma_scan_valid(s);
    if s.len() == 0 {
        assert(colors_of(s) =~= seq![clear()].to_set());
        seq![clear()].unique_seq_to_set();
    } else {
        let t = s.drop_last();
        let c = s.last();
        law_scan_fits_iff_at_most_four(t);
        lemma_scan_valid(t);
        assert(colors_of(s) =~= colors_of(t).insert(c)) by {
            assert(s =~= t.push(c));
            assert forall|q: Pixel| s.contains(q) <==> t.contains(q) || q == c by {
                if s.contains(q) {
                    let k = choose|k: int| 0 <= k < s.len() && s[k] == q;
                    if k < t.len() {
                        assert(t[k] == q);
                    }
                }
                if t.contains(q) {
                    let k = choose|k: int| 0 <= k < t.len() && t[k] == q;
                    assert(s[k] == q);
                }
                if q == c {
                    assert(s[s.len() - 1] == q);
                }
            }
        }
        match scan(t) {
            None => {
                vstd::set_lib::lemma_len_subset(colors_of(t), colors_of(s));
            },
            Some(p) => {
                p.unique_seq_to_set();
                if p.contains(c) {
                    assert(colors_of(s) =~= colors_of(t));
                } else if p.len() < 4 {
                    let q = p.push(c);
                    assert(q.to_set() =~= p.to_set().insert(c)) by {
                        assert forall|v: Pixel| q.contains(v) <==> p.contains(v) || v == c by {
                            if q.contains(v) {
                                let k = choose|k: int| 0 <= k < q.len() && q[k] == v;
                                if k < p.len() {
                                    assert(p[k] == v);
                                }
                            }
                            if p.contains(v) {
                                let k = choose|k: int| 0 <= k < p.len() && p[k] == v;
                                assert(q[k] == v);
                            }
                            if v == c {
                                assert(q[q.len() - 1] == v);
                            }
                        }
                    }
                    lemma_scan_valid(s);
                    q.unique_seq_to_set();
                } else {
                    assert(!colors_of(t).contains(c));
                }
            },
        }
    }
}

/// The pixel at which a scan first fails brings a fifth color: the pixels
/// before it, with the transparent color, have exactly four colors, and its
/// own color is none of them.
pub proof fn law_overflow_is_fifth_color(s: Seq<Pixel>, i: int)
    requires
        overflows_at(s, i),
    ensures
        colors_of(s.take(i)).len() == 4,
        !colors_of(s.take(i)).contains(s[i]),
        colors_of(s.take(i + 1)).len() == 5,
{
    let t = s.take(i + 1);
    assert(t.drop_last() =~= s.take(i));
    law_scan_fits_iff_at_most_four(s.take(i));
    law_scan_fits_iff_at_most_four(t);
    lemma_scan_valid(s.take(i));
    assert(colors_of(t) =~= colors_of(s.take(i)).insert(s[i])) by {
        assert(t =~= s.take(i).push(s[i]));
        assert forall|q: Pixel| t.contains(q) <==> s.take(i).contains(q) || q == s[i] by {
            if t.contains(q) {
                let k = choose|k: int| 0 <= k < t.len() && t[k] == q;
                if k < i {
                    assert(s.take(i)[k] == q);
                }
            }
            if s.take(i).contains(q) {
                let k = choose|k: int| 0 <= k < i && s.take(i)[k] == q;
                assert(t[k] == q);
            }
            if q == s[i] {
                assert(t[i] == q);
            }
        }
    }
}

/// A color-to-identifier table: the color at position `i` has identifier `i`.
#[derive(Debug)]
pub struct Palette {
    colors: Vec<Pixel>,
}

impl View for Palette {
    type V = Seq<Pixel>;

    closed spec fn view(&self) -> Seq<Pixel> {
        self.colors@
    }
}

impl Palette {
    pub open spec fn wf(&self) -> bool {
        valid_palette(self@)
    }

    /// A palette holding only the transparent color, as identifier 0.
    pub fn new() -> (p: Palette)
        ensures
            p@ == seq![clear()],
            p.wf(),
    {
        let mut colors: Vec<Pixel> = Vec::new();
        colors.push(Pixel::transparent());
        Palette { colors }
    }

    /// The number of colors, the transparent one included.
    pub fn len(&self) -> (n: usize)
        ensures
            n == self@.len(),
    {
        self.colors.len()
    }

    /// The color with identifier `id`, if there is one.
    pub fn color(&self, id: usize) -> (c: Option<Pixel>)
        ensures
            id < self@.len() ==> c == Some(self@[id as int]),
            id >= self@.len() ==> c is None,
    {
        if id < self.colors.len() {
            Some(self.colors[id])
        } else {
            None
        }
    }

    /// The identifier of color `c`, if the palette holds it.
    pub fn lookup(&self, c: &Pixel) -> (r: Option<u8>)
        requires
            self.wf(),
        ensures
            self@.contains(*c) ==> r == Some(color_id(self@, *c) as u8),
            !self@.contains(*c) ==> r is None,
    {
        let n = self.colors.len();
        let mut i: usize = 0;
        while i < n
            invariant
                n == self@.len(),
                self.wf(),
                i <= n,
                forall|j: int| 0 <= j < i ==> self@[j] != *c,
            decreases n - i,
        {
            if self.colors[i] == *c {
                proof {
                    let k = self@.index_of(*c);
                    assert(self@.contains(*c));
                    assert(self@[k] == *c);
                }
                return Some(i as u8);
            }
            i = i + 1;
        }
        None
    }

    /// Appends a color not yet present, with the next identifier.
    fn push(&mut self, c: Pixel)
        requires
            old(self).wf(),
            !old(self)@.contains(c),
            old(self)@.len() < MAX_COLORS,
        ensures
            final(self)@ == old(self)@.push(c),
    {
        self.colors.push(c);
    }
}

/// The coordinate of the first pixel whose color would be a fifth one.
#[derive(Debug, PartialEq, Eq, Structural)]
pub struct TooManyColors {
    pub x: u32,
    pub y: u32,
}

/// Scans the image in row-major order and gives each new color the next
/// identifier, after the transparent color's 0.
pub fn build_palette(img: &Image) -> (r: Result<Palette, TooManyColors>)
    requires
        img.wf(),
    ensures
        r is Ok <==> scan(img.pixels@) is Some,
        r matches Ok(p) ==> scan(img.pixels@) == Some(p@) && p.wf(),
        r matches Err(e) ==> e.x < img.width && e.y < img.height
            && overflows_at(img.pixels@, e.y as int * img.width as int + e.x as int),
{
    let n = img.pixels.len();
    let ghost s = img.pixels@;
    let mut pal = Palette::new();
    let mut i: usize = 0;
    let mut x: u32 = 0;
    let mut y: u32 = 0;
    proof {
        assert(s.take(0) =~= Seq::<Pixel>::empty());
    }
    while i < n
        invariant
            img.wf(),
            s == img.pixels@,
            n == s.len(),
            i <= n,
            i == y as int * img.width as int + x as int,
            i < n ==> x < img.width,
            scan(s.take(i as int)) == Some(pal@),
            pal.wf(),
        decreases n - i,
    {
        let c = img.pixels[i];
        proof {
            assert(s.take(i + 1).drop_last() =~= s.take(i as int));
            assert(s.take(i + 1).last() == c);
            assert(y < img.height) by (nonlinear_arith)
                requires
                    i == y as int * img.width as int + x as int,
                    i < n,
                    n == img.width as int * img.height as int,
            ;
            lemma_scan_valid(s.take(i + 1));
        }
        match pal.lookup(&c) {
            Some(_) => {},
            None => {
                if pal.len() < MAX_COLORS {
                    pal.push(c);
                } else {
                    proof {
                        lemma_scan_none_stays(s, i + 1);
                    }
                    return Err(TooManyColors { x, y });
                }
            },
        }
        i = i + 1;
        if x + 1 == img.width {
            proof {
                assert(i == (y + 1) as int * img.width as int) by (nonlinear_arith)
                    requires
                        i == y as int * img.width as int + x as int + 1,
                        x + 1 == img.width,
                ;
            }
            x = 0;
            y = y + 1;
        } else {
            x = x + 1;
        }
        proof {
            if i < n {
                assert(x < img.width);
            }
        }
    }
    proof {
        assert(s.take(n as int) =~= s);
    }
    Ok(pal)
}

} // verus!
