//! ASCII-art fonts for the countdown, and choosing the largest that fits.
use vstd::prelude::*;
use crate::text::{append_chars, copy_range, chars_of, lower, lower_chars, string_of, views};

verus! {

/// A width and a height, in terminal cells.
#[derive(Clone, Copy, Debug, PartialEq, Eq, Structural)]
pub struct Size {
    pub width: u16,
    pub height: u16,
}

impl Size {
    pub fn new(width: u16, height: u16) -> (r: Size)
        ensures
            r.width == width && r.height == height,
    {
        Size { width, height }
    }
}

/// The characters every bundled font draws, in the order of the columns of
/// its glyph table.
pub open spec fn glyph_chars() -> Seq<char> {
    "0123456789: "@
}

/// What a font holds: its name, its glyphs (a character and its rows, one
/// per line), and the spacing between glyphs.
pub struct FontView {
    pub name: Seq<char>,
    pub glyphs: Seq<(char, Seq<Seq<char>>)>,
    pub spacing: nat,
}

/// The number of lines a font draws: that of its first glyph, 1 without
/// glyphs.
pub open spec fn font_height(f: FontView) -> nat {
    if f.glyphs.len() > 0 {
        f.glyphs[0].1.len()
    } else {
        1
    }
}

/// A font draws every glyph on the same lines, draws a space, and has one
/// glyph per character.
pub open spec fn font_wf(f: FontView) -> bool {
    &&& f.glyphs.len() > 0
    &&& forall|k: int| 0 <= k < f.glyphs.len() ==> (#[trigger] f.glyphs[k]).1.len() == font_height(f)
    &&& exists|k: int| 0 <= k < f.glyphs.len() && (#[trigger] f.glyphs[k]).0 == ' '
    &&& forall|a: int, b: int|
        0 <= a < b < f.glyphs.len() ==> (#[trigger] f.glyphs[a]).0 != (#[trigger] f.glyphs[b]).0
    &&& font_height(f) <= u16::MAX
}

/// The position of the glyph for `c`, searching from `k`.
pub open spec fn glyph_index_from(g: Seq<(char, Seq<Seq<char>>)>, c: char, k: int) -> Option<int>
    decreases g.len() - k,
{
    if k < 0 || k >= g.len() {
        None
    } else if g[k].0 == c {
        Some(k)
    } else {
        glyph_index_from(g, c, k + 1)
    }
}

/// The rows drawn for `c`: its glyph, or the space glyph for a character the
/// font lacks.
pub open spec fn glyph_for(f: FontView, c: char) -> Seq<Seq<char>> {
    match glyph_index_from(f.glyphs, c, 0) {
        Some(k) => f.glyphs[k].1,
        None => match glyph_index_from(f.glyphs, ' ', 0) {
            Some(k) => f.glyphs[k].1,
            None => seq![],
        },
    }
}

pub open spec fn spaces(n: nat) -> Seq<char> {
    Seq::new(n, |i: int| ' ')
}

/// Line `r` of `text` drawn in `f`: the glyphs' rows `r`, separated by the
/// spacing.
pub open spec fn rendered_line(f: FontView, text: Seq<char>, r: int) -> Seq<char>
    decreases text.len(),
{
    if text.len() == 0 {
        seq![]
    } else {
        let sep = if text.len() > 1 {
            spaces(f.spacing)
        } else {
            seq![]
        };
        rendered_line(f, text.drop_last(), r) + sep + glyph_for(f, text.last())[r]
    }
}

/// `text` drawn in `f`, one line per row of the font.
pub open spec fn rendered(f: FontView, text: Seq<char>) -> Seq<Seq<char>> {
    Seq::new(font_height(f), |r: int| rendered_line(f, text, r))
}

/// Whether `text` drawn in `f` fits within `size`.
pub open spec fn fits_in(f: FontView, text: Seq<char>, size: Size) -> bool {
    &&& font_height(f) <= size.height
    &&& forall|r: int| 0 <= r < font_height(f) ==> (#[trigger] rendered_line(f, text, r)).len() <= size.width
}

#[derive(Debug)]
struct Glyph {
    character: char,
    rows: Vec<Vec<char>>,
}

/// An ASCII-art font.
#[derive(Debug)]
pub struct Font {
    pub name: &'static str,
    glyphs: Vec<Glyph>,
    spacing: u16,
}

spec fn glyph_views(g: Seq<Glyph>) -> Seq<(char, Seq<Seq<char>>)> {
    g.map_values(|x: Glyph| (x.character, views(x.rows@)))
}

impl View for Font {
    type V = FontView;

    closed spec fn view(&self) -> FontView {
        FontView { name: self.name@, glyphs: glyph_views(self.glyphs@), spacing: self.spacing as nat }
    }
}

} // verus!

verus! {

pub proof fn lemma_glyph_index_found(g: Seq<(char, Seq<Seq<char>>)>, c: char, from: int, k: int)
    requires
        0 <= from <= k < g.len(),
        g[k].0 == c,
    ensures
        glyph_index_from(g, c, from) matches Some(j) && 0 <= j < g.len() && g[j].0 == c,
    decreases k - from,
{
    if g[from].0 != c {
        lemma_glyph_index_found(g, c, from + 1, k);
    }
}

pub proof fn lemma_glyph_index_in_range(g: Seq<(char, Seq<Seq<char>>)>, c: char, from: int)
    ensures
        glyph_index_from(g, c, from) matches Some(j) ==> 0 <= j < g.len() && g[j].0 == c,
    decreases g.len() - from,
{
    if 0 <= from < g.len() && g[from].0 != c {
        lemma_glyph_index_in_range(g, c, from + 1);
    }
}

impl Font {
    fn glyph_index(&self, c: char) -> (r: Option<usize>)
        ensures
            r matches Some(k) ==> glyph_index_from(self@.glyphs, c, 0) == Some(k as int),
            r is None ==> glyph_index_from(self@.glyphs, c, 0) is None,
    {
        let ghost g = self@.glyphs;
        let mut k: usize = 0;
        while k < self.glyphs.len()
            invariant
                k <= self.glyphs@.len(),
                g == self@.glyphs,
                g.len() == self.glyphs@.len(),
                glyph_index_from(g, c, 0) == glyph_index_from(g, c, k as int),
            decreases self.glyphs.len() - k,
        {
            assert(g[k as int].0 == self.glyphs@[k as int].character);
            if self.glyphs[k].character == c {
                return Some(k);
            }
            k += 1;
        }
        None
    }

    /// The glyph drawn for `c`.
    fn glyph_for(&self, c: char) -> (r: usize)
        requires
            font_wf(self@),
        ensures
            r < self@.glyphs.len(),
            glyph_for(self@, c) == self@.glyphs[r as int].1,
    {
        proof {
            lemma_glyph_index_in_range(self@.glyphs, c, 0);
            lemma_glyph_index_in_range(self@.glyphs, ' ', 0);
            let k = choose|k: int| 0 <= k < self@.glyphs.len() && (#[trigger] self@.glyphs[k]).0 == ' ';
            lemma_glyph_index_found(self@.glyphs, ' ', 0, k);
        }
        match self.glyph_index(c) {
            Some(k) => k,
            None => self.glyph_index(' ').unwrap(),
        }
    }

    fn height(&self) -> (r: usize)
        requires
            font_wf(self@),
        ensures
            r == font_height(self@),
    {
        assert(glyph_views(self.glyphs@)[0].1 == views(self.glyphs@[0].rows@));
        self.glyphs[0].rows.len()
    }

    /// `text` drawn in this font, as lines of characters.
    fn render_chars(&self, text: &Vec<char>) -> (r: Vec<Vec<char>>)
        requires
            font_wf(self@),
        ensures
            views(r@) == rendered(self@, text@),
    {
        let ghost f = self@;
        let height = self.height();
        let mut lines: Vec<Vec<char>> = Vec::new();
        while lines.len() < height
            invariant
                lines@.len() <= height,
                forall|r: int| 0 <= r < lines@.len() ==> (#[trigger] lines@[r])@ == Seq::<char>::empty(),
            decreases height - lines.len(),
        {
            lines.push(Vec::new());
        }
        let mut spacer: Vec<char> = Vec::new();
        while spacer.len() < self.spacing as usize
            invariant
                spacer@.len() <= self.spacing,
                spacer@ == spaces(spacer@.len() as nat),
            decreases self.spacing - spacer.len(),
        {
            spacer.push(' ');
            assert(spacer@ =~= spaces(spacer@.len() as nat));
        }
        assert(text@.take(0) =~= Seq::<char>::empty());
        let mut i: usize = 0;
        while i < text.len()
            invariant
                i <= text.len(),
                f == self@,
                font_wf(f),
                height == font_height(f),
                lines@.len() == height,
                spacer@ == spaces(f.spacing),
                forall|r: int| 0 <= r < height ==> (#[trigger] lines@[r])@ == rendered_line(f, text@.take(i as int), r),
            decreases text.len() - i,
        {
            let k = self.glyph_for(text[i]);
            let ghost rows = f.glyphs[k as int].1;
            assert(rows == views(self.glyphs@[k as int].rows@));
            assert(rows.len() == height);
            assert(text@.take(i + 1).drop_last() =~= text@.take(i as int));
            assert(text@.take(i + 1).last() == text@[i as int]);
            let ghost before = lines@;
            let mut r: usize = 0;
            while r < height
                invariant
                    r <= height,
                    i < text.len(),
                    f == self@,
                    k < f.glyphs.len(),
                    rows == f.glyphs[k as int].1,
                    rows == views(self.glyphs@[k as int].rows@),
                    rows.len() == height,
                    glyph_for(f, text@[i as int]) == rows,
                    text@.take(i + 1).drop_last() == text@.take(i as int),
                    text@.take(i + 1).last() == text@[i as int],
                    lines@.len() == height,
                    before.len() == height,
                    spacer@ == spaces(f.spacing),
                    forall|q: int| 0 <= q < r ==> (#[trigger] lines@[q])@ == rendered_line(f, text@.take(i + 1), q),
                    forall|q: int| r <= q < height ==> (#[trigger] lines@[q]) == before[q],
                    forall|q: int| 0 <= q < height ==> (#[trigger] before[q])@ == rendered_line(f, text@.take(i as int), q),
                decreases height - r,
            {
                let mut line = copy_range(&lines[r], 0, lines[r].len());
                assert(line@ =~= lines@[r as int]@);
                assert(line@ == rendered_line(f, text@.take(i as int), r as int));
                if i > 0 {
                    append_chars(&mut line, &spacer);
                }
                assert(rows[r as int] == self.glyphs@[k as int].rows@[r as int]@);
                append_chars(&mut line, &self.glyphs[k].rows[r]);
                assert(line@ =~= rendered_line(f, text@.take(i + 1), r as int));
                lines.set(r, line);
                r += 1;
            }
            i += 1;
        }
        assert(text@.take(text@.len() as int) =~= text@);
        assert(views(lines@) =~= rendered(f, text@));
        lines
    }

    /// `text` drawn in this font, one string per line.
    pub fn render(&self, text: &str) -> (r: Vec<String>)
        requires
            font_wf(self@),
        ensures
            r@.map_values(|s: String| s@) == rendered(self@, text@),
    {
        let lines = self.render_chars(&chars_of(text));
        let mut out: Vec<String> = Vec::new();
        let mut r: usize = 0;
        while r < lines.len()
            invariant
                r <= lines@.len(),
                out@.map_values(|s: String| s@) == views(lines@).take(r as int),
            decreases lines.len() - r,
        {
            assert(views(lines@)[r as int] == lines@[r as int]@);
            let ghost old_out = out@;
            let s = string_of(lines[r].as_slice());
            out.push(s);
            assert(out@.map_values(|s: String| s@) =~= old_out.map_values(|s: String| s@).push(s@));
            r += 1;
            assert(out@.map_values(|s: String| s@) =~= views(lines@).take(r as int));
        }
        assert(views(lines@).take(lines@.len() as int) =~= views(lines@));
        out
    }

    /// Whether `text` drawn in this font fits within `size`.
    pub fn fits(&self, text: &str, size: Size) -> (r: bool)
        requires
            font_wf(self@),
        ensures
            r == fits_in(self@, text@, size),
    {
        let lines = self.render_chars(&chars_of(text));
        assert(lines@.len() == views(lines@).len());
        assert(lines@.len() == font_height(self@));
        if lines.len() > size.height as usize {
            return false;
        }
        let mut r: usize = 0;
        while r < lines.len()
            invariant
                r <= lines@.len(),
                lines@.len() == font_height(self@),
                font_height(self@) <= size.height,
                views(lines@) == rendered(self@, text@),
                forall|q: int| 0 <= q < r ==> (#[trigger] rendered_line(self@, text@, q)).len() <= size.width,
            decreases lines.len() - r,
        {
            assert(views(lines@)[r as int] == lines@[r as int]@);
            assert(rendered(self@, text@)[r as int] == rendered_line(self@, text@, r as int));
            if lines[r].len() > size.width as usize {
                return false;
            }
            r += 1;
        }
        true
    }
}

} // verus!

verus! {

// ---------------------------------------------------------------------------
// Bundled fonts
// ---------------------------------------------------------------------------

/// The glyphs of a table whose rows give, column by column, the rows of the
/// glyphs for `0123456789: `.
pub open spec fn table_glyphs(rows: Seq<Seq<Seq<char>>>) -> Seq<(char, Seq<Seq<char>>)> {
    Seq::new(12, |k: int| (glyph_chars()[k], Seq::new(rows.len(), |r: int| rows[r][k])))
}

pub open spec fn table_view(rows: Seq<[&'static str; 12]>) -> Seq<Seq<Seq<char>>> {
    rows.map_values(|row: [&'static str; 12]| row@.map_values(|s: &'static str| s@))
}

fn make_glyph(character: char, rows: Vec<Vec<char>>) -> (g: Glyph)
    ensures
        g.character == character,
        g.rows == rows,
{
    Glyph { character, rows }
}

/// Column `k` of a glyph table: the rows of one glyph.
fn table_column(rows: &[[&'static str; 12]], k: usize) -> (r: Vec<Vec<char>>)
    requires
        k < 12,
    ensures
        views(r@) == Seq::new(rows@.len(), |q: int| table_view(rows@)[q][k as int]),
{
    let ghost want = Seq::new(rows@.len(), |q: int| table_view(rows@)[q][k as int]);
    let mut out: Vec<Vec<char>> = Vec::new();
    let mut r: usize = 0;
    while r < rows.len()
        invariant
            k < 12,
            r <= rows@.len(),
            want == Seq::new(rows@.len(), |q: int| table_view(rows@)[q][k as int]),
            views(out@) == want.take(r as int),
        decreases rows.len() - r,
    {
        let row = rows[r];
        let cell = chars_of(row[k]);
        let ghost before = views(out@);
        out.push(cell);
        assert(views(out@) =~= before.push(cell@));
        r += 1;
        assert(views(out@) =~= want.take(r as int));
    }
    assert(want.take(rows@.len() as int) =~= want);
    out
}

fn rows_to_glyphs(rows: &[[&'static str; 12]]) -> (r: Vec<Glyph>)
    ensures
        glyph_views(r@) == table_glyphs(table_view(rows@)),
{
    let characters = chars_of("0123456789: ");
    proof {
        reveal_strlit("0123456789: ");
    }
    let ghost want = table_glyphs(table_view(rows@));
    let mut out: Vec<Glyph> = Vec::new();
    let mut k: usize = 0;
    while k < 12
        invariant
            k <= 12,
            characters@ == glyph_chars(),
            characters@.len() == 12,
            want == table_glyphs(table_view(rows@)),
            out@.len() == k,
            forall|j: int| 0 <= j < k ==> glyph_views(out@)[j] == want[j],
        decreases 12 - k,
    {
        let column = table_column(rows, k);
        let ghost before = out@;
        let g = make_glyph(characters[k], column);
        out.push(g);
        proof {
            assert(views(column@) =~= want[k as int].1);
            assert forall|j: int| 0 <= j < k + 1 implies glyph_views(out@)[j] == want[j] by {
                if j < k {
                    assert(out@[j] == before[j]);
                }
            }
        }
        k += 1;
    }
    assert(glyph_views(out@) =~= want);
    out
}

/// The glyphs for the characters of `characters`, each drawn as itself on
/// `height` lines.
pub open spec fn plain_glyphs(characters: Seq<char>, height: nat) -> Seq<(char, Seq<Seq<char>>)> {
    Seq::new(characters.len(), |k: int| (characters[k], Seq::new(height, |r: int| seq![characters[k]])))
}

fn chars_to_glyphs(characters: &str, height: usize) -> (r: Vec<Glyph>)
    ensures
        glyph_views(r@) == plain_glyphs(characters@, height as nat),
{
    let cs = chars_of(characters);
    let ghost want = plain_glyphs(characters@, height as nat);
    let mut out: Vec<Glyph> = Vec::new();
    let mut k: usize = 0;
    while k < cs.len()
        invariant
            k <= cs@.len(),
            cs@ == characters@,
            want == plain_glyphs(characters@, height as nat),
            out@.len() == k,
            forall|j: int| 0 <= j < k ==> (#[trigger] out@[j]).character == want[j].0 && views(out@[j].rows@) == want[j].1,
        decreases cs.len() - k,
    {
        let mut glyph_rows: Vec<Vec<char>> = Vec::new();
        while glyph_rows.len() < height
            invariant
                k < cs@.len(),
                glyph_rows@.len() <= height,
                views(glyph_rows@) == want[k as int].1.take(glyph_rows@.len() as int),
                want == plain_glyphs(characters@, height as nat),
                cs@ == characters@,
                out@.len() == k,
            forall|j: int| 0 <= j < k ==> (#[trigger] out@[j]).character == want[j].0 && views(out@[j].rows@) == want[j].1,
            decreases height - glyph_rows.len(),
        {
            let ghost before = views(glyph_rows@);
            let mut cell: Vec<char> = Vec::new();
            cell.push(cs[k]);
            glyph_rows.push(cell);
            assert(views(glyph_rows@) =~= before.push(cell@));
            assert(views(glyph_rows@) =~= want[k as int].1.take(glyph_rows@.len() as int));
        }
        assert(want[k as int].1.take(height as int) =~= want[k as int].1);
        let g = make_glyph(cs[k], glyph_rows);
        out.push(g);
        k += 1;
    }
    assert(glyph_views(out@) =~= want);
    out
}

pub open spec fn standard_rows() -> Seq<Seq<Seq<char>>> {
    seq![
        seq!["┌─┐"@, " ┐ "@, "┌─┐"@, "┌─┐"@, "┐ ┐"@, "┌─┐"@, "┌─┐"@, "┌─┐"@, "┌─┐"@, "┌─┐"@, " "@, "   "@],
        seq!["│ │"@, " │ "@, "┌─┘"@, " ─┤"@, "└─┤"@, "└─┐"@, "├─┐"@, "  │"@, "├─┤"@, "└─┤"@, "·"@, "   "@],
        seq!["└─┘"@, " ┴ "@, "└──"@, "└─┘"@, "  ┴"@, "└─┘"@, "└─┘"@, "  ┴"@, "└─┘"@, "└─┘"@, "·"@, "   "@],
    ]
}

pub open spec fn banner_rows() -> Seq<Seq<Seq<char>>> {
    seq![
        seq!["███"@, " █ "@, "███"@, "███"@, "█ █"@, "███"@, "███"@, "███"@, "███"@, "███"@, " "@, "   "@],
        seq!["█ █"@, "██ "@, "  █"@, "  █"@, "█ █"@, "█  "@, "█  "@, "  █"@, "█ █"@, "█ █"@, "█"@, "   "@],
        seq!["█ █"@, " █ "@, "███"@, "███"@, "███"@, "███"@, "███"@, "  █"@, "███"@, "███"@, " "@, "   "@],
        seq!["█ █"@, " █ "@, "█  "@, "  █"@, "  █"@, "  █"@, "█ █"@, "  █"@, "█ █"@, "  █"@, "█"@, "   "@],
        seq!["███"@, "███"@, "███"@, "███"@, "  █"@, "███"@, "███"@, "  █"@, "███"@, "███"@, " "@, "   "@],
    ]
}

/// The `compact` font: the characters themselves, on one line, without
/// spacing.
pub open spec fn compact_spec() -> FontView {
    FontView { name: "compact"@, glyphs: plain_glyphs(glyph_chars(), 1), spacing: 0 }
}

/// The `standard` font: box-drawing glyphs on three lines.
pub open spec fn standard_spec() -> FontView {
    FontView { name: "standard"@, glyphs: table_glyphs(standard_rows()), spacing: 2 }
}

/// The `banner` font: block glyphs on five lines.
pub open spec fn banner_spec() -> FontView {
    FontView { name: "banner"@, glyphs: table_glyphs(banner_rows()), spacing: 2 }
}

pub fn compact_font() -> (r: Font)
    ensures
        r@ == compact_spec(),
{
    Font { name: "compact", glyphs: chars_to_glyphs("0123456789: ", 1), spacing: 0 }
}

pub fn standard_font() -> (r: Font)
    ensures
        r@ == standard_spec(),
{
    let rows: [[&'static str; 12]; 3] = [
        ["┌─┐", " ┐ ", "┌─┐", "┌─┐", "┐ ┐", "┌─┐", "┌─┐", "┌─┐", "┌─┐", "┌─┐", " ", "   "],
        ["│ │", " │ ", "┌─┘", " ─┤", "└─┤", "└─┐", "├─┐", "  │", "├─┤", "└─┤", "·", "   "],
        ["└─┘", " ┴ ", "└──", "└─┘", "  ┴", "└─┘", "└─┘", "  ┴", "└─┘", "└─┘", "·", "   "],
    ];
    let glyphs = rows_to_glyphs(&rows);
    assert(table_view(rows@) =~~= standard_rows());
    Font { name: "standard", glyphs, spacing: 2 }
}

pub fn banner_font() -> (r: Font)
    ensures
        r@ == banner_spec(),
{
    let rows: [[&'static str; 12]; 5] = [
        ["███", " █ ", "███", "███", "█ █", "███", "███", "███", "███", "███", " ", "   "],
        ["█ █", "██ ", "  █", "  █", "█ █", "█  ", "█  ", "  █", "█ █", "█ █", "█", "   "],
        ["█ █", " █ ", "███", "███", "███", "███", "███", "  █", "███", "███", " ", "   "],
        ["█ █", " █ ", "█  ", "  █", "  █", "  █", "█ █", "  █", "█ █", "  █", "█", "   "],
        ["███", "███", "███", "███", "  █", "███", "███", "  █", "███", "███", " ", "   "],
    ];
    let glyphs = rows_to_glyphs(&rows);
    assert(table_view(rows@) =~~= banner_rows());
    Font { name: "banner", glyphs, spacing: 2 }
}

} // verus!

verus! {

proof fn lemma_table_font_wf(name: Seq<char>, rows: Seq<Seq<Seq<char>>>, spacing: nat)
    requires
        0 < rows.len() <= u16::MAX,
        forall|r: int| 0 <= r < rows.len() ==> (#[trigger] rows[r]).len() == 12,
    ensures
        font_wf(FontView { name, glyphs: table_glyphs(rows), spacing }),
{
    reveal_strlit("0123456789: ");
    let f = FontView { name, glyphs: table_glyphs(rows), spacing };
    assert(f.glyphs[11].0 == ' ');
}

proof fn lemma_plain_font_wf(name: Seq<char>, spacing: nat)
    ensures
        font_wf(FontView { name, glyphs: plain_glyphs(glyph_chars(), 1), spacing }),
{
    reveal_strlit("0123456789: ");
    let f = FontView { name, glyphs: plain_glyphs(glyph_chars(), 1), spacing };
    assert(f.glyphs[11].0 == ' ');
}

/// The bundled fonts are well formed.
pub proof fn lemma_bundled_fonts_wf()
    ensures
        font_wf(banner_spec()),
        font_wf(standard_spec()),
        font_wf(compact_spec()),
{
    lemma_table_font_wf("banner"@, banner_rows(), 2);
    lemma_table_font_wf("standard"@, standard_rows(), 2);
    lemma_plain_font_wf("compact"@, 0);
}

/// The bundled fonts, largest first.
pub open spec fn bundled_fonts() -> Seq<FontView> {
    seq![banner_spec(), standard_spec(), compact_spec()]
}

/// The first font, from position `k`, whose name equals `name` ignoring
/// ASCII case.
pub open spec fn first_named(fs: Seq<FontView>, name: Seq<char>, k: int) -> Option<int>
    decreases fs.len() - k,
{
    if k < 0 || k >= fs.len() {
        None
    } else if lower(fs[k].name) == lower(name) {
        Some(k)
    } else {
        first_named(fs, name, k + 1)
    }
}

/// The first font, from position `k`, in which `text` fits `size`.
pub open spec fn first_fitting(fs: Seq<FontView>, text: Seq<char>, size: Size, k: int) -> Option<int>
    decreases fs.len() - k,
{
    if k < 0 || k >= fs.len() {
        None
    } else if fits_in(fs[k], text, size) {
        Some(k)
    } else {
        first_fitting(fs, text, size, k + 1)
    }
}

/// The position of the font called `preferred` where `text` fits `size` in
/// it, otherwise of the first font in which it fits.
pub open spec fn preferred_fit(fs: Seq<FontView>, preferred: Seq<char>, text: Seq<char>, size: Size) -> Option<int> {
    match first_named(fs, preferred, 0) {
        Some(k) if fits_in(fs[k], text, size) => Some(k),
        _ => first_fitting(fs, text, size, 0),
    }
}

/// The fonts to choose from, largest first.
#[derive(Debug)]
pub struct FontCatalog {
    fonts: Vec<Font>,
}

impl View for FontCatalog {
    type V = Seq<FontView>;

    closed spec fn view(&self) -> Seq<FontView> {
        self.fonts@.map_values(|f: Font| f@)
    }
}

impl Default for FontCatalog {
    fn default() -> (r: FontCatalog)
        ensures
            r@ == bundled_fonts(),
    {
        proof {
            lemma_bundled_fonts_wf();
        }
        let mut fonts: Vec<Font> = Vec::new();
        fonts.push(banner_font());
        fonts.push(standard_font());
        fonts.push(compact_font());
        let r = FontCatalog { fonts };
        assert(r@ =~= bundled_fonts());
        r
    }
}

impl FontCatalog {
    #[verifier::type_invariant]
    pub open spec fn all_well_formed(self) -> bool {
        forall|k: int| 0 <= k < self@.len() ==> font_wf(#[trigger] self@[k])
    }

    /// The fonts' names, largest first.
    pub fn names(&self) -> (r: Vec<&'static str>)
        ensures
            r@.map_values(|s: &'static str| s@) == self@.map_values(|f: FontView| f.name),
    {
        let mut out: Vec<&'static str> = Vec::new();
        let mut k: usize = 0;
        while k < self.fonts.len()
            invariant
                k <= self.fonts@.len(),
                out@.len() == k,
                forall|j: int| 0 <= j < k ==> (#[trigger] out@[j])@ == self@[j].name,
            decreases self.fonts.len() - k,
        {
            assert(self@[k as int] == self.fonts@[k as int]@);
            out.push(self.fonts[k].name);
            k += 1;
        }
        assert(out@.map_values(|s: &'static str| s@) =~= self@.map_values(|f: FontView| f.name));
        out
    }

    /// The font called `name`, ignoring ASCII case.
    pub fn by_name(&self, name: &str) -> (r: Option<&Font>)
        ensures
            match first_named(self@, name@, 0) {
                Some(k) => r matches Some(f) && f@ == self@[k] && font_wf(f@),
                None => r is None,
            },
    {
        proof {
            use_type_invariant(self);
        }
        let wanted = lower_chars(&chars_of(name));
        let mut k: usize = 0;
        while k < self.fonts.len()
            invariant
                k <= self.fonts@.len(),
                wanted@ == lower(name@),
                forall|j: int| 0 <= j < self@.len() ==> font_wf(#[trigger] self@[j]),
                first_named(self@, name@, 0) == first_named(self@, name@, k as int),
            decreases self.fonts.len() - k,
        {
            assert(self@[k as int] == self.fonts@[k as int]@);
            let candidate = lower_chars(&chars_of(self.fonts[k].name));
            if same_chars(&candidate, &wanted) {
                return Some(&self.fonts[k]);
            }
            k += 1;
        }
        None
    }

    /// The first font, largest first, in which `text` fits `size`.
    pub fn largest_fit(&self, text: &str, size: Size) -> (r: Option<&Font>)
        ensures
            match first_fitting(self@, text@, size, 0) {
                Some(k) => r matches Some(f) && f@ == self@[k] && font_wf(f@),
                None => r is None,
            },
    {
        proof {
            use_type_invariant(self);
        }
        let mut k: usize = 0;
        while k < self.fonts.len()
            invariant
                k <= self.fonts@.len(),
                forall|j: int| 0 <= j < self@.len() ==> font_wf(#[trigger] self@[j]),
                first_fitting(self@, text@, size, 0) == first_fitting(self@, text@, size, k as int),
            decreases self.fonts.len() - k,
        {
            assert(self@[k as int] == self.fonts@[k as int]@);
            if self.fonts[k].fits(text, size) {
                return Some(&self.fonts[k]);
            }
            k += 1;
        }
        None
    }

    /// The font called `preferred` where `text` fits `size` in it, otherwise
    /// the largest that fits.
    pub fn largest_fit_preferring(&self, preferred: &str, text: &str, size: Size) -> (r: Option<&Font>)
        ensures
            match preferred_fit(self@, preferred@, text@, size) {
                Some(k) => r matches Some(f) && f@ == self@[k],
                None => r is None,
            },
            r matches Some(f) ==> font_wf(f@),
    {
        match self.by_name(preferred) {
            Some(f) => if f.fits(text, size) {
                return Some(f);
            },
            None => {},
        }
        self.largest_fit(text, size)
    }
}

fn same_chars(a: &Vec<char>, b: &Vec<char>) -> (r: bool)
    ensures
        r == (a@ == b@),
{
    if a.len() != b.len() {
        return false;
    }
    let mut i: usize = 0;
    while i < a.len()
        invariant
            i <= a.len() == b.len(),
            forall|k: int| 0 <= k < i ==> a@[k] == b@[k],
        decreases a.len() - i,
    {
        if a[i] != b[i] {
            return false;
        }
        i += 1;
    }
    assert(a@ =~= b@);
    true
}

} // verus!

verus! {

/// The bundled fonts come largest first: `banner` is drawn on five lines,
/// `standard` on three and `compact` on one.
pub proof fn law_bundled_fonts_largest_first()
    ensures
        font_height(bundled_fonts()[0]) == 5,
        font_height(bundled_fonts()[1]) == 3,
        font_height(bundled_fonts()[2]) == 1,
{
    assert(banner_spec().glyphs[0].1.len() == banner_rows().len());
    assert(standard_spec().glyphs[0].1.len() == standard_rows().len());
    reveal_strlit("0123456789: ");
    assert(compact_spec().glyphs[0].1.len() == 1);
}

proof fn lemma_first_fitting_from(fs: Seq<FontView>, text: Seq<char>, size: Size, k: int)
    requires
        0 <= k <= fs.len(),
        forall|j: int| 0 <= j < k ==> !fits_in(#[trigger] fs[j], text, size),
    ensures
        match first_fitting(fs, text, size, k) {
            Some(i) => k <= i < fs.len() && fits_in(fs[i], text, size) && forall|j: int|
                0 <= j < i ==> !fits_in(#[trigger] fs[j], text, size),
            None => forall|j: int| 0 <= j < fs.len() ==> !fits_in(#[trigger] fs[j], text, size),
        },
    decreases fs.len() - k,
{
    if k < fs.len() && !fits_in(fs[k], text, size) {
        lemma_first_fitting_from(fs, text, size, k + 1);
    }
}

/// The font chosen to fit is the first, in catalogue order (largest first),
/// in which the text fits: it fits, and no font before it does; where none is
/// chosen, none fits.
pub proof fn law_largest_fit_is_first_that_fits(fs: Seq<FontView>, text: Seq<char>, size: Size)
    ensures
        match first_fitting(fs, text, size, 0) {
            Some(i) => 0 <= i < fs.len() && fits_in(fs[i], text, size) && forall|j: int|
                0 <= j < i ==> !fits_in(#[trigger] fs[j], text, size),
            None => forall|j: int| 0 <= j < fs.len() ==> !fits_in(#[trigger] fs[j], text, size),
        },
{
    lemma_first_fitting_from(fs, text, size, 0);
}

} // verus!

verus! {

/// Text is drawn on as many lines as the font has rows, whatever the text.
pub proof fn law_rendered_rows(f: FontView, text: Seq<char>)
    ensures
        rendered(f, text).len() == font_height(f),
{
}

/// Drawing two texts one after the other draws each row of the first, the
/// font's spacing, and the same row of the second.
pub proof fn law_render_appends(f: FontView, a: Seq<char>, b: Seq<char>, r: int)
    requires
        a.len() > 0,
        b.len() > 0,
    ensures
        rendered_line(f, a + b, r) == rendered_line(f, a, r) + spaces(f.spacing) + rendered_line(
            f,
            b,
            r,
        ),
    decreases b.len(),
{
    assert((a + b).drop_last() =~= a + b.drop_last());
    assert((a + b).last() == b.last());
    if b.len() == 1 {
        assert(b.drop_last() =~= Seq::<char>::empty());
        assert(a + b.drop_last() =~= a);
        assert(rendered_line(f, b, r) =~= glyph_for(f, b.last())[r]);
    } else {
        law_render_appends(f, a, b.drop_last(), r);
    }
}

/// A character the font has no glyph for is drawn as a space.
pub proof fn law_missing_glyph_drawn_as_space(f: FontView, c: char)
    requires
        glyph_index_from(f.glyphs, c, 0) is None,
    ensures
        glyph_for(f, c) == glyph_for(f, ' '),
{
}

} // verus!

verus! {

/// Text that fits a size in a font, drawn in it, takes no more lines than the
/// size has and no line wider than it.
pub proof fn law_fitting_text_stays_within_size(f: FontView, text: Seq<char>, size: Size)
    requires
        fits_in(f, text, size),
    ensures
        rendered(f, text).len() <= size.height,
        forall|r: int| 0 <= r < rendered(f, text).len() ==> (#[trigger] rendered(f, text)[r]).len()
            <= size.width,
{
}

proof fn lemma_first_named_in_range(fs: Seq<FontView>, name: Seq<char>, k: int)
    ensures
        first_named(fs, name, k) matches Some(i) ==> 0 <= k <= i < fs.len(),
    decreases fs.len() - k,
{
    if 0 <= k < fs.len() && lower(fs[k].name) != lower(name) {
        lemma_first_named_in_range(fs, name, k + 1);
    }
}

/// Where the preferred font exists and the text fits in it, the preferred
/// font is the one chosen, even where a larger font also fits; whatever is
/// chosen fits, and nothing is chosen only where no font fits.
pub proof fn law_preferred_font_wins_when_it_fits(
    fs: Seq<FontView>,
    preferred: Seq<char>,
    text: Seq<char>,
    size: Size,
)
    ensures
        forall|k: int|
            #![trigger fs[k]]
            first_named(fs, preferred, 0) == Some(k) && fits_in(fs[k], text, size) ==> preferred_fit(
                fs,
                preferred,
                text,
                size,
            ) == Some(k),
        preferred_fit(fs, preferred, text, size) matches Some(i) ==> 0 <= i < fs.len() && fits_in(
            fs[i],
            text,
            size,
        ),
        preferred_fit(fs, preferred, text, size) is None ==> forall|j: int|
            0 <= j < fs.len() ==> !fits_in(#[trigger] fs[j], text, size),
{
    lemma_first_fitting_from(fs, text, size, 0);
    lemma_first_named_in_range(fs, preferred, 0);
}

} // verus!
