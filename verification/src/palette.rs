use vstd::assert_seqs_equal;
use vstd::prelude::*;

verus! {

/// The closed set of dither modes. Each mode names one fixed palette pair,
/// resolved once per request to a concrete Palette value.
#[derive(Clone, Copy, Debug, PartialEq, Eq, Structural)]
pub enum DitherType {
    EPaperSeven,
    WaveShare,
    ThreeBit,
}

/// The seven-entry-plus-white set tuned for a color e-paper panel.
pub open spec fn epaper_colors() -> Seq<(u8, u8, u8)> {
    seq![
        (0u8, 0u8, 0u8),
        (255u8, 255u8, 255u8),
        (67u8, 138u8, 28u8),
        (100u8, 64u8, 255u8),
        (191u8, 0u8, 0u8),
        (255u8, 243u8, 56u8),
        (232u8, 126u8, 0u8),
        (194u8, 164u8, 244u8),
    ]
}

/// The nominal seven-color set a panel renders.
pub open spec fn waveshare_display_colors() -> Seq<(u8, u8, u8)> {
    seq![
        (0u8, 0u8, 0u8),
        (255u8, 255u8, 255u8),
        (0u8, 255u8, 0u8),
        (0u8, 0u8, 255u8),
        (255u8, 0u8, 0u8),
        (255u8, 255u8, 0u8),
        (200u8, 180u8, 160u8),
    ]
}

/// The measured ("true") colors of the same panel, matched against in place
/// of the nominal set.
pub open spec fn waveshare_match_colors() -> Seq<(u8, u8, u8)> {
    seq![
        (50u8, 50u8, 80u8),
        (225u8, 225u8, 225u8),
        (87u8, 130u8, 75u8),
        (65u8, 65u8, 150u8),
        (175u8, 45u8, 39u8),
        (220u8, 200u8, 110u8),
        (225u8, 225u8, 195u8),
    ]
}

/// The strict eight-entry primary-color set.
pub open spec fn strict_colors() -> Seq<(u8, u8, u8)> {
    seq![
        (0u8, 0u8, 0u8),
        (255u8, 0u8, 0u8),
        (0u8, 255u8, 0u8),
        (0u8, 0u8, 255u8),
        (255u8, 255u8, 0u8),
        (0u8, 255u8, 255u8),
        (255u8, 0u8, 255u8),
        (255u8, 255u8, 255u8),
    ]
}

/// The colors a mode matches against.
pub open spec fn match_palette_spec(mode: DitherType) -> Seq<(u8, u8, u8)> {
    match mode {
        DitherType::EPaperSeven => epaper_colors(),
        DitherType::WaveShare => waveshare_match_colors(),
        DitherType::ThreeBit => strict_colors(),
    }
}

/// The colors a mode writes to the output.
pub open spec fn display_palette_spec(mode: DitherType) -> Seq<(u8, u8, u8)> {
    match mode {
        DitherType::EPaperSeven => epaper_colors(),
        DitherType::WaveShare => waveshare_display_colors(),
        DitherType::ThreeBit => strict_colors(),
    }
}

/// A palette entry with the given channel values.
pub fn rgb(r: u8, g: u8, b: u8) -> (c: [u8; 3])
    ensures
        color_view(c) == (r, g, b),
{
    [r, g, b]
}

/// The RGB triple held by one palette entry.
pub open spec fn color_view(c: [u8; 3]) -> (u8, u8, u8) {
    (c@[0], c@[1], c@[2])
}

/// Absolute difference of two 8-bit channel values.
pub open spec fn abs_diff_spec(a: u8, b: u8) -> int {
    if a > b { a - b } else { b - a }
}

/// Absolute difference of two 8-bit channel values, in unsigned arithmetic.
pub fn abs_diff(a: u8, b: u8) -> (r: u8)
    ensures
        r == abs_diff_spec(a, b),
{
    if a > b {
        a - b
    } else {
        b - a
    }
}

/// L1 (Manhattan) distance between two RGB colors: the sum of the absolute
/// per-channel differences.
pub open spec fn color_dist(a: (u8, u8, u8), b: (u8, u8, u8)) -> int {
    abs_diff_spec(a.0, b.0) + abs_diff_spec(a.1, b.1) + abs_diff_spec(a.2, b.2)
}

/// Index i is the nearest match for color c in palette pal: no entry is
/// strictly closer, and every strictly earlier entry is strictly farther, so
/// ties resolve to the lowest index.
pub open spec fn is_nearest(pal: Seq<(u8, u8, u8)>, c: (u8, u8, u8), i: int) -> bool {
    &&& 0 <= i < pal.len()
    &&& forall|j: int| 0 <= j < pal.len() ==> color_dist(c, #[trigger] pal[j]) >= color_dist(c, pal[i])
    &&& forall|j: int| 0 <= j < i ==> color_dist(c, #[trigger] pal[j]) > color_dist(c, pal[i])
}

/// The index the quantizer selects for color c in palette pal: the one
/// nearest index that is_nearest admits.
pub open spec fn nearest_index(pal: Seq<(u8, u8, u8)>, c: (u8, u8, u8)) -> int {
    choose|i: int| is_nearest(pal, c, i)
}

/// At most one index satisfies is_nearest: ties are broken by the strict
/// condition on earlier entries.
pub proof fn lemma_nearest_unique(pal: Seq<(u8, u8, u8)>, c: (u8, u8, u8), i: int, j: int)
    requires
        is_nearest(pal, c, i),
        is_nearest(pal, c, j),
    ensures
        i == j,
{
    if i < j {
        assert(color_dist(c, pal[i]) > color_dist(c, pal[j]));
        assert(color_dist(c, pal[i]) <= color_dist(c, pal[j]));
    }
    if j < i {
        assert(color_dist(c, pal[j]) > color_dist(c, pal[i]));
        assert(color_dist(c, pal[j]) <= color_dist(c, pal[i]));
    }
}

/// Any index that is_nearest admits is the nearest_index.
pub proof fn lemma_nearest_index_agrees(pal: Seq<(u8, u8, u8)>, c: (u8, u8, u8), i: int)
    requires
        is_nearest(pal, c, i),
    ensures
        nearest_index(pal, c) == i,
{
    assert(is_nearest(pal, c, nearest_index(pal, c))) by {
        assert(exists|k: int| is_nearest(pal, c, k));
    }
    lemma_nearest_unique(pal, c, nearest_index(pal, c), i);
}

/// An ordered set of reference colors used for nearest-color matching, with an
/// optional parallel set substituted into the output in place of the matched
/// entry.
pub struct Palette {
    match_colors: Vec<[u8; 3]>,
    display_colors: Option<Vec<[u8; 3]>>,
}

impl Palette {
    /// The colors that distances are measured against.
    pub closed spec fn match_seq(self) -> Seq<(u8, u8, u8)> {
        self.match_colors@.map_values(|c: [u8; 3]| color_view(c))
    }

    /// The colors written to the output: the substitution set when present,
    /// else the match set itself.
    pub closed spec fn display_seq(self) -> Seq<(u8, u8, u8)> {
        match self.display_colors {
            Some(d) => d@.map_values(|c: [u8; 3]| color_view(c)),
            None => self.match_seq(),
        }
    }

    /// At least one entry, and a substitution set, when present, pairs with
    /// the match set index for index.
    pub closed spec fn wf(self) -> bool {
        &&& self.match_colors@.len() >= 1
        &&& match self.display_colors {
            Some(d) => d@.len() == self.match_colors@.len(),
            None => true,
        }
    }

    pub open spec fn spec_len(self) -> int {
        self.match_seq().len() as int
    }

    /// Builds a palette from match colors and an optional substitution set of
    /// equal length.
    pub fn new(input: Vec<[u8; 3]>, index_p: Option<Vec<[u8; 3]>>) -> (r: Self)
        requires
            input@.len() >= 1,
            index_p matches Some(d) ==> d@.len() == input@.len(),
        ensures
            r.wf(),
            r.match_seq() == input@.map_values(|c: [u8; 3]| color_view(c)),
            r.display_seq() == (match index_p {
                Some(d) => d@.map_values(|c: [u8; 3]| color_view(c)),
                None => input@.map_values(|c: [u8; 3]| color_view(c)),
            }),
    {
        Palette { match_colors: input, display_colors: index_p }
    }

    /// A well-formed palette is not empty, and its output color set pairs
    /// with the match set entry for entry.
    pub proof fn lemma_display_len(&self)
        requires
            self.wf(),
        ensures
            self.display_seq().len() == self.match_seq().len(),
            self.match_seq().len() >= 1,
    {
    }

    /// Number of palette entries.
    pub fn len(&self) -> (r: usize)
        ensures
            r == self.spec_len(),
    {
        self.match_colors.len()
    }

    /// The match color at a valid index.
    pub fn match_color_at(&self, index: usize) -> (r: [u8; 3])
        requires
            index < self.spec_len(),
        ensures
            color_view(r) == self.match_seq()[index as int],
    {
        self.match_colors[index]
    }

    /// L1 distance between an input color and palette entry j.
    fn entry_dist(&self, color: &[u8; 3], j: usize) -> (r: u32)
        requires
            j < self.spec_len(),
        ensures
            r == color_dist(color_view(*color), self.match_seq()[j as int]),
    {
        let c = self.match_colors[j];
        abs_diff(color[0], c[0]) as u32 + abs_diff(color[1], c[1]) as u32 + abs_diff(
            color[2],
            c[2],
        ) as u32
    }

    /// The index of the palette entry at minimal L1 distance from the input
    /// color; ties resolve to the lowest index.
    pub fn index_of(&self, color: &[u8; 3]) -> (r: usize)
        requires
            self.wf(),
        ensures
            is_nearest(self.match_seq(), color_view(*color), r as int),
    {
        let mut best: usize = 0;
        let mut best_d: u32 = self.entry_dist(color, 0);
        let mut j: usize = 1;
        while j < self.match_colors.len()
            invariant
                self.wf(),
                1 <= j <= self.spec_len(),
                best < j,
                best_d == color_dist(color_view(*color), self.match_seq()[best as int]),
                forall|k: int|
                    0 <= k < j ==> color_dist(color_view(*color), #[trigger] self.match_seq()[k])
                        >= best_d,
                forall|k: int|
                    0 <= k < best ==> color_dist(color_view(*color), #[trigger] self.match_seq()[k])
                        > best_d,
            decreases self.spec_len() - j,
        {
            let d = self.entry_dist(color, j);
            if d < best_d {
                best = j;
                best_d = d;
            }
            j = j + 1;
        }
        best
    }

    /// The output color for a valid index: the substitution set's entry when a
    /// substitution set exists, else the match entry; None past the end.
    pub fn lookup(&self, index: usize) -> (r: Option<[u8; 3]>)
        requires
            self.wf(),
        ensures
            index < self.spec_len() ==> (r matches Some(c) && color_view(c)
                == self.display_seq()[index as int]),
            index >= self.spec_len() ==> r is None,
    {
        match &self.display_colors {
            Some(palette) => {
                if index < palette.len() {
                    Some(palette[index])
                } else {
                    None
                }
            },
            None => {
                if index < self.match_colors.len() {
                    Some(self.match_colors[index])
                } else {
                    None
                }
            },
        }
    }

    /// This palette resolves every index produced by index_of.
    pub fn has_lookup(&self) -> (r: bool)
        ensures
            r,
    {
        true
    }

    /// Replaces a color with the output color of its nearest match.
    pub fn map_color(&self, color: &mut [u8; 3])
        requires
            self.wf(),
        ensures
            exists|i: int|
                is_nearest(self.match_seq(), color_view(*old(color)), i) && color_view(
                    *final(color),
                ) == self.display_seq()[i],
    {
        let i = self.index_of(color);
        if let Some(new_color) = self.lookup(i) {
            *color = new_color;
        }
    }
}

/// The fixed palette pair a dither mode selects.
pub fn palette_for(mode: DitherType) -> (r: Palette)
    ensures
        r.wf(),
        r.match_seq() == match_palette_spec(mode),
        r.display_seq() == display_palette_spec(mode),
{
    match mode {
        DitherType::EPaperSeven => {
            let v = vec![
                rgb(0, 0, 0),
                rgb(255, 255, 255),
                rgb(67, 138, 28),
                rgb(100, 64, 255),
                rgb(191, 0, 0),
                rgb(255, 243, 56),
                rgb(232, 126, 0),
                rgb(194, 164, 244),
            ];
            let p = Palette::new(v, None);
            proof {
                assert_seqs_equal!(p.match_seq() == epaper_colors());
                assert_seqs_equal!(p.display_seq() == epaper_colors());
            }
            p
        },
        DitherType::WaveShare => {
            let m = vec![
                rgb(50, 50, 80),
                rgb(225, 225, 225),
                rgb(87, 130, 75),
                rgb(65, 65, 150),
                rgb(175, 45, 39),
                rgb(220, 200, 110),
                rgb(225, 225, 195),
            ];
            let d = vec![
                rgb(0, 0, 0),
                rgb(255, 255, 255),
                rgb(0, 255, 0),
                rgb(0, 0, 255),
                rgb(255, 0, 0),
                rgb(255, 255, 0),
                rgb(200, 180, 160),
            ];
            let p = Palette::new(m, Some(d));
            proof {
                assert_seqs_equal!(p.match_seq() == waveshare_match_colors());
                assert_seqs_equal!(p.display_seq() == waveshare_display_colors());
            }
            p
        },
        DitherType::ThreeBit => {
            let v = vec![
                rgb(0, 0, 0),
                rgb(255, 0, 0),
                rgb(0, 255, 0),
                rgb(0, 0, 255),
                rgb(255, 255, 0),
                rgb(0, 255, 255),
                rgb(255, 0, 255),
                rgb(255, 255, 255),
            ];
            let p = Palette::new(v, None);
            proof {
                assert_seqs_equal!(p.match_seq() == strict_colors());
                assert_seqs_equal!(p.display_seq() == strict_colors());
            }
            p
        },
    }
}

} // verus!
