//! URL spans and the tracker that builds them from rendered cells.

use vstd::prelude::*;
use urlocator::UrlLocator;

use crate::locator::{
    advance_locator, count_char, has_room, location_after, locator_after, new_locator, Location,
};
use crate::point::{point_le, retreat_spec, Point, Rgb};
use crate::ui::{highlight_allowed, ModifiersState, Mouse, UrlConfig};

verus! {

/// How a cell is drawn, as far as URL tracking is concerned.
#[derive(Clone, Copy, Debug, PartialEq, Eq, Structural)]
pub struct CellFlags {
    /// The cell holds a character two columns wide.
    pub wide_char: bool,
    /// The cell is the spacer at the end of a row that a wide character did not fit in.
    pub leading_wide_char_spacer: bool,
    /// The row continues on the next one (a soft wrap).
    pub wrapline: bool,
}

/// One cell as the renderer hands it over.
#[derive(Clone, Copy, Debug, PartialEq, Eq, Structural)]
pub struct RenderableCell {
    pub point: Point,
    pub character: char,
    pub fg: Rgb,
    pub flags: CellFlags,
}

/// An inclusive run of cells drawn in one color.
#[derive(Clone, Copy, Debug, PartialEq, Eq, Structural)]
pub struct RenderLine {
    pub start: Point,
    pub end: Point,
    pub color: Rgb,
}

/// One recognized URL: its runs of cells, in scan order, and how many trailing cells
/// the grammar currently leaves out.
#[derive(Clone, Debug, PartialEq, Eq)]
pub struct Url {
    lines: Vec<RenderLine>,
    end_offset: usize,
    num_cols: usize,
}

/// A URL as plain values: its runs, its trailing exclusion and the grid width it was
/// started on.
pub struct UrlView {
    pub lines: Seq<RenderLine>,
    pub end_offset: nat,
    pub num_cols: nat,
}

/// Both ends of the run lie within a grid `num_cols` cells wide.
pub open spec fn line_fits(line: RenderLine, num_cols: nat) -> bool {
    line.start.column < num_cols && line.end.column < num_cols
}

impl UrlView {
    /// At least one run, every run within the grid, and a positive width.
    pub open spec fn wf(self) -> bool {
        &&& self.lines.len() > 0
        &&& 0 < self.num_cols <= usize::MAX
        &&& self.end_offset <= 65536
        &&& forall|i: int|
            0 <= i < self.lines.len() ==> line_fits(#[trigger] self.lines[i], self.num_cols)
    }

    pub open spec fn start(self) -> Point {
        self.lines[0].start
    }

    /// The last run's end, moved back over the excluded trailing cells.
    pub open spec fn end(self) -> Point {
        retreat_spec(self.lines.last().end, self.num_cols, self.end_offset)
    }

    pub open spec fn contains(self, p: Point) -> bool {
        point_le(self.start(), p) && point_le(p, self.end())
    }
}

impl View for Url {
    type V = UrlView;

    closed spec fn view(&self) -> UrlView {
        UrlView {
            lines: self.lines@,
            end_offset: self.end_offset as nat,
            num_cols: self.num_cols as nat,
        }
    }
}

/// The runs of `lines` that start no later than `end`, each cut off at `end`.
pub open spec fn visible_lines(lines: Seq<RenderLine>, end: Point) -> Seq<RenderLine>
    decreases lines.len(),
{
    if lines.len() == 0 {
        Seq::empty()
    } else {
        let rest = visible_lines(lines.drop_last(), end);
        let line = lines.last();
        if point_le(line.start, end) {
            rest.push(
                RenderLine {
                    end: if point_le(line.end, end) {
                        line.end
                    } else {
                        end
                    },
                    ..line
                },
            )
        } else {
            rest
        }
    }
}

impl Url {
    /// The runs to underline: those that start within the URL, cut at its end.
    pub fn rects(&self) -> (r: Vec<RenderLine>)
        requires
            self@.wf(),
        ensures
            r@ == visible_lines(self@.lines, self@.end()),
    {
        let end = self.end();
        let mut r: Vec<RenderLine> = Vec::new();
        let mut i: usize = 0;
        while i < self.lines.len()
            invariant
                i <= self.lines@.len(),
                r@ == visible_lines(self.lines@.subrange(0, i as int), end),
            decreases self.lines@.len() - i,
        {
            let line = self.lines[i];
            assert(self.lines@.subrange(0, i + 1).drop_last() == self.lines@.subrange(0, i as int));
            if line.start.le(end) {
                let clipped = if line.end.le(end) {
                    line.end
                } else {
                    end
                };
                r.push(RenderLine { start: line.start, end: clipped, color: line.color });
            }
            i = i + 1;
        }
        assert(self.lines@.subrange(0, self.lines@.len() as int) == self.lines@);
        r
    }

    pub fn start(&self) -> (r: Point)
        requires
            self@.wf(),
        ensures
            r == self@.start(),
    {
        self.lines[0].start
    }

    pub fn end(&self) -> (r: Point)
        requires
            self@.wf(),
        ensures
            r == self@.end(),
    {
        self.lines[self.lines.len() - 1].end.retreat(self.num_cols, self.end_offset)
    }

    fn duplicate(&self) -> (r: Url)
        ensures
            r@ == self@,
    {
        let mut lines: Vec<RenderLine> = Vec::new();
        let mut i: usize = 0;
        while i < self.lines.len()
            invariant
                i <= self.lines@.len(),
                lines@ == self.lines@.subrange(0, i as int),
            decreases self.lines@.len() - i,
        {
            lines.push(self.lines[i]);
            i = i + 1;
        }
        assert(lines@ == self.lines@);
        Url { lines, end_offset: self.end_offset, num_cols: self.num_cols }
    }
}

/// The runs after one more cell: a cell of the last run's color moves that run's end,
/// any other cell opens a new run.
pub open spec fn extended_lines(
    lines: Seq<RenderLine>,
    start: Point,
    end: Point,
    color: Rgb,
) -> Seq<RenderLine> {
    if lines.len() > 0 && lines.last().color == color {
        lines.update(lines.len() - 1, RenderLine { end, ..lines.last() })
    } else {
        lines.push(RenderLine { start, end, color })
    }
}

/// The runs after each buffered scheme cell, in order.
pub open spec fn flushed_lines(lines: Seq<RenderLine>, buffer: Seq<(Point, Rgb)>) -> Seq<
    RenderLine,
>
    decreases buffer.len(),
{
    if buffer.len() == 0 {
        lines
    } else {
        let (p, c) = buffer.last();
        extended_lines(flushed_lines(lines, buffer.drop_last()), p, p, c)
    }
}

/// The URL list with its last URL extended by one cell and given a new trailing
/// exclusion.
pub open spec fn extended_last(
    urls: Seq<UrlView>,
    start: Point,
    end: Point,
    color: Rgb,
    end_offset: nat,
) -> Seq<UrlView> {
    let u = urls.last();
    urls.update(
        urls.len() - 1,
        UrlView {
            lines: extended_lines(u.lines, start, end, color),
            end_offset,
            num_cols: u.num_cols,
        },
    )
}

/// The last cell that a cell occupies: the next column for a wide character.
pub open spec fn cell_end(cell: RenderableCell) -> Point {
    if cell.flags.wide_char {
        Point { line: cell.point.line, column: (cell.point.column + 1) as usize }
    } else {
        cell.point
    }
}

/// Whether a cell at `point` directly follows the cell that ended at `last`.
pub open spec fn follows(point: Point, num_cols: nat, last: Option<Point>) -> bool {
    point == (Point { line: 0, column: 0 }) || last == Some(retreat_spec(point, num_cols, 1))
}

/// Whether a cell is the last of a row that does not continue on the next one.
pub open spec fn at_hard_break(cell: RenderableCell, num_cols: nat) -> bool {
    cell.point.column + 1 == num_cols && !cell.flags.wrapline
}

/// The tracker's state, as plain values.
pub struct UrlsView {
    /// The URLs found so far, in the order they were started.
    pub urls: Seq<UrlView>,
    /// Cells seen while the classifier reported a possible scheme.
    pub scheme_buffer: Seq<(Point, Rgb)>,
    /// The last cell taken by the previous update.
    pub last_point: Option<Point>,
    /// The classifier's last report.
    pub state: Location,
    /// The characters fed to the current classifier.
    pub input: Seq<char>,
    /// The grid width of the last update.
    pub num_cols: nat,
}

/// The state after a reset: a fresh classifier, an empty scheme buffer, the URLs kept.
pub open spec fn reset_spec(s: UrlsView) -> UrlsView {
    UrlsView { scheme_buffer: Seq::empty(), state: Location::Reset, input: Seq::empty(), ..s }
}

/// Whether the last URL can take more cells: it exists and was started on this width.
pub open spec fn has_open_url(s: UrlsView) -> bool {
    s.urls.len() > 0 && s.urls.last().num_cols == s.num_cols
}

/// The state after the classifier reported `location` for `cell`.
pub open spec fn advance_with_spec(s: UrlsView, location: Location, cell: RenderableCell) -> UrlsView {
    let s1 = UrlsView { state: location, ..s };
    let end = cell_end(cell);
    let s2 = match (location, s.state) {
        (Location::Url(_, e), Location::Scheme) => UrlsView {
            urls: s.urls.push(
                UrlView {
                    lines: extended_lines(
                        flushed_lines(Seq::empty(), s.scheme_buffer),
                        cell.point,
                        end,
                        cell.fg,
                    ),
                    end_offset: e as nat,
                    num_cols: s.num_cols,
                },
            ),
            scheme_buffer: Seq::empty(),
            ..s1
        },
        (Location::Url(_, e), Location::Url(_, _)) => if has_open_url(s) {
            UrlsView { urls: extended_last(s.urls, cell.point, end, cell.fg, e as nat), ..s1 }
        } else {
            s1
        },
        (Location::Scheme, _) => UrlsView { scheme_buffer: s.scheme_buffer.push((cell.point, cell.fg)), ..s1 },
        (Location::Reset, _) => reset_spec(s1),
        _ => s1,
    };
    if at_hard_break(cell, s.num_cols) {
        reset_spec(s2)
    } else {
        s2
    }
}

/// The state after one cell is scanned on a grid `num_cols` wide.
pub open spec fn update_spec(s: UrlsView, num_cols: nat, cell: RenderableCell) -> UrlsView {
    let s1 = if num_cols != s.num_cols {
        UrlsView { num_cols, ..reset_spec(s) }
    } else {
        s
    };
    let s2 = if follows(cell.point, num_cols, s1.last_point) {
        s1
    } else {
        reset_spec(s1)
    };
    let end = cell_end(cell);
    let s3 = UrlsView { last_point: Some(end), ..s2 };
    if cell.flags.leading_wide_char_spacer {
        match s3.state {
            Location::Url(_, e) => if has_open_url(s3) {
                UrlsView {
                    urls: extended_last(
                        s3.urls,
                        cell.point,
                        end,
                        cell.fg,
                        if e != 0 {
                            (e + 1) as nat
                        } else {
                            0
                        },
                    ),
                    ..s3
                }
            } else {
                s3
            },
            _ => s3,
        }
    } else {
        let s4 = if has_room(s3.input) {
            s3
        } else {
            reset_spec(s3)
        };
        let input = s4.input.push(cell.character);
        advance_with_spec(UrlsView { input, ..s4 }, location_after(input), cell)
    }
}

/// The state after scanning `cells` in order on a grid `num_cols` wide.
pub open spec fn scan_spec(s: UrlsView, num_cols: nat, cells: Seq<RenderableCell>) -> UrlsView
    decreases cells.len(),
{
    if cells.len() == 0 {
        s
    } else {
        update_spec(scan_spec(s, num_cols, cells.drop_last()), num_cols, cells.last())
    }
}

/// Whether a cell fits a grid `num_cols` wide, with the column its wide character takes.
pub open spec fn cell_fits(cell: RenderableCell, num_cols: nat) -> bool {
    &&& cell.point.column < num_cols
    &&& cell.flags.wide_char ==> cell.point.column + 1 < num_cols
}

/// Whether `r` is what a lookup at `p` in `urls` gives: a copy of the first URL that
/// contains `p`, or nothing when none does.
pub open spec fn lookup_result(urls: Seq<UrlView>, p: Point, r: Option<Url>) -> bool {
    match r {
        Some(u) => exists|i: int|
            0 <= i < urls.len() && u@ == urls[i] && #[trigger] urls[i].contains(p) && forall|
                j: int,
            |
                0 <= j < i ==> !(#[trigger] urls[j].contains(p)),
        None => forall|i: int| 0 <= i < urls.len() ==> !(#[trigger] urls[i].contains(p)),
    }
}

/// Finds the URLs in a rendered frame, one cell at a time.
pub struct Urls {
    locator: UrlLocator,
    urls: Vec<Url>,
    scheme_buffer: Vec<(Point, Rgb)>,
    last_point: Option<Point>,
    state: Location,
    num_cols: usize,
    input: Ghost<Seq<char>>,
    fed_len: usize,
    fed_parens: usize,
    fed_brackets: usize,
}

impl View for Urls {
    type V = UrlsView;

    closed spec fn view(&self) -> UrlsView {
        UrlsView {
            urls: self.urls@.map_values(|u: Url| u@),
            scheme_buffer: self.scheme_buffer@,
            last_point: self.last_point,
            state: self.state,
            input: self.input@,
            num_cols: self.num_cols as nat,
        }
    }
}

impl Urls {
    /// Every URL is well formed, buffered scheme cells lie within the current width, and
    /// the counters mirror what the classifier has been fed.
    pub closed spec fn wf(&self) -> bool {
        &&& forall|i: int| 0 <= i < self.urls@.len() ==> (#[trigger] self.urls@[i])@.wf()
        &&& forall|i: int|
            0 <= i < self.scheme_buffer@.len() ==> (#[trigger] self.scheme_buffer@[i]).0.column
                < self.num_cols
        &&& self.locator == locator_after(self.input@)
        &&& self.fed_len == self.input@.len()
        &&& self.fed_parens == count_char(self.input@, '(')
        &&& self.fed_brackets == count_char(self.input@, '[')
    }

    pub fn new() -> (r: Urls)
        ensures
            r.wf(),
            r@.urls.len() == 0,
            r@.scheme_buffer.len() == 0,
            r@.last_point is None,
            r@.state == Location::Reset,
            r@.input.len() == 0,
            r@.num_cols == 0,
    {
        Urls {
            locator: new_locator(),
            urls: Vec::new(),
            scheme_buffer: Vec::new(),
            last_point: None,
            state: Location::Reset,
            num_cols: 0,
            input: Ghost(Seq::empty()),
            fed_len: 0,
            fed_parens: 0,
            fed_brackets: 0,
        }
    }

    fn reset(&mut self)
        requires
            old(self).wf(),
        ensures
            final(self).wf(),
            final(self)@ == reset_spec(old(self)@),
    {
        self.locator = new_locator();
        self.input = Ghost(Seq::empty());
        self.state = Location::Reset;
        self.scheme_buffer = Vec::new();
        self.fed_len = 0;
        self.fed_parens = 0;
        self.fed_brackets = 0;
    }

    /// The URLs found so far, in the order they were started.
    pub fn urls(&self) -> (r: &Vec<Url>)
        requires
            self.wf(),
        ensures
            r@.map_values(|u: Url| u@) == self@.urls,
            forall|i: int| 0 <= i < r@.len() ==> (#[trigger] r@[i])@.wf(),
    {
        &self.urls
    }

    /// The URL under the pointer, when the interface state allows highlighting one.
    pub fn highlighted(
        &self,
        config: &UrlConfig,
        mouse: &Mouse,
        mods: ModifiersState,
        mouse_mode: bool,
        selection: bool,
    ) -> (r: Option<Url>)
        requires
            self.wf(),
        ensures
            !highlight_allowed(*config, *mouse, mods, mouse_mode, selection) ==> r is None,
            highlight_allowed(*config, *mouse, mods, mouse_mode, selection) ==> lookup_result(
                self@.urls,
                Point { line: mouse.line, column: mouse.column },
                r,
            ),
            r matches Some(u) ==> u@.wf(),
    {
        let mut required_mods = config.mods;
        if mouse_mode {
            required_mods.shift = true;
        }
        if selection || !mouse.inside_text_area || !config.launcher_configured || required_mods
            != mods || mouse.left_button_pressed {
            return None;
        }
        self.find_at(Point::new(mouse.line, mouse.column))
    }

    /// The first URL that contains `point`.
    pub fn find_at(&self, point: Point) -> (r: Option<Url>)
        requires
            self.wf(),
        ensures
            lookup_result(self@.urls, point, r),
            r matches Some(u) ==> u@.wf(),
    {
        let mut i: usize = 0;
        while i < self.urls.len()
            invariant
                self.wf(),
                i <= self.urls@.len(),
                forall|j: int| 0 <= j < i ==> !(#[trigger] self@.urls[j].contains(point)),
            decreases self.urls@.len() - i,
        {
            let url = &self.urls[i];
            proof {
                assert(self@.urls[i as int] == url@);
                assert(url@.wf());
            }
            if url.start().le(point) && point.le(url.end()) {
                let found = url.duplicate();
                assert(self@.urls[i as int].contains(point));
                return Some(found);
            }
            i = i + 1;
        }
        None
    }

    /// Extends the last URL by one cell and sets its trailing exclusion.
    fn extend_url(&mut self, start: Point, end: Point, color: Rgb, end_offset: usize)
        requires
            old(self).wf(),
            has_open_url(old(self)@),
            start.column < old(self).num_cols,
            end.column < old(self).num_cols,
            end_offset <= 65536,
        ensures
            final(self).wf(),
            final(self)@ == (UrlsView {
                urls: extended_last(old(self)@.urls, start, end, color, end_offset as nat),
                ..old(self)@
            }),
    {
        let ghost old_urls = self.urls@;
        let ghost n = old_urls.len() - 1;
        assert(self.urls@.map_values(|u: Url| u@)[n] == self.urls@[n]@);
        match self.urls.pop() {
            Some(mut url) => {
                proof {
                    assert(self.urls@ == old_urls.subrange(0, n));
                    assert(url@.wf());
                    lemma_extended_fits(url.lines@, start, end, color, url.num_cols as nat);
                }
                extend_lines(&mut url.lines, start, end, color);
                url.end_offset = end_offset;
                self.urls.push(url);
                proof {
                    assert(self.urls@ == old_urls.update(n, url));
                    assert(self.urls@.map_values(|u: Url| u@) =~= extended_last(
                        old_urls.map_values(|u: Url| u@),
                        start,
                        end,
                        color,
                        end_offset as nat,
                    ));
                }
            },
            None => {},
        }
    }

    /// Takes the classifier's report `location` for `cell`, the character of which it
    /// has just been fed: buffers scheme cells, starts or extends the URL, or resets.
    pub fn advance_with(&mut self, cell: &RenderableCell, location: Location)
        requires
            old(self).wf(),
            cell_fits(*cell, old(self)@.num_cols),
        ensures
            final(self).wf(),
            final(self)@ == advance_with_spec(old(self)@, location, *cell),
    {
        let last_state = self.state;
        self.state = location;
        let point = cell.point;
        let end = if cell.flags.wide_char {
            Point { line: point.line, column: point.column + 1 }
        } else {
            point
        };
        match (location, last_state) {
            (Location::Url(_, end_offset), Location::Scheme) => {
                let mut lines = flush(&self.scheme_buffer, self.num_cols);
                proof {
                    lemma_extended_fits(lines@, point, end, cell.fg, self.num_cols as nat);
                }
                extend_lines(&mut lines, point, end, cell.fg);
                self.scheme_buffer = Vec::new();
                let ghost old_urls = self.urls@;
                self.urls.push(Url { lines, end_offset: end_offset as usize, num_cols: self.num_cols });
                proof {
                    assert(self.scheme_buffer@ =~= Seq::<(Point, Rgb)>::empty());
                    assert(self.urls@.map_values(|u: Url| u@) =~= old_urls.map_values(
                        |u: Url| u@,
                    ).push(self.urls@.last()@));
                    assert forall|i: int| 0 <= i < self.urls@.len() implies (
                    #[trigger] self.urls@[i])@.wf() by {
                        if i < old_urls.len() {
                            assert(self.urls@[i] == old_urls[i]);
                        }
                    }
                }
            },
            (Location::Url(_, end_offset), Location::Url(_, _)) => {
                if self.has_open_url() {
                    self.extend_url(point, end, cell.fg, end_offset as usize);
                }
            },
            (Location::Scheme, _) => {
                self.scheme_buffer.push((point, cell.fg));
                proof {
                    assert forall|i: int| 0 <= i < self.scheme_buffer@.len() implies (
                    #[trigger] self.scheme_buffer@[i]).0.column < self.num_cols by {
                        if i < self.scheme_buffer@.len() - 1 {
                            assert(self.scheme_buffer@[i] == old(self).scheme_buffer@[i]);
                        }
                    }
                }
            },
            (Location::Reset, _) => self.reset(),
            _ => {},
        }
        if point.column + 1 == self.num_cols && !cell.flags.wrapline {
            self.reset();
        }
    }

    fn has_open_url(&self) -> (r: bool)
        requires
            self.wf(),
        ensures
            r == has_open_url(self@),
    {
        let n = self.urls.len();
        if n == 0 {
            false
        } else {
            proof {
                assert(self@.urls[n - 1] == self.urls@[n - 1]@);
            }
            self.urls[n - 1].num_cols == self.num_cols
        }
    }

    /// Scans one rendered cell of a grid `num_cols` wide.
    ///
    /// A cell that does not directly follow the previous one, or that comes from a grid
    /// of another width, starts the classifier over first. So does a classifier that
    /// could not take another character without overflowing its counters.
    pub fn update(&mut self, num_cols: usize, cell: &RenderableCell)
        requires
            old(self).wf(),
            num_cols > 0,
            cell_fits(*cell, num_cols as nat),
        ensures
            final(self).wf(),
            final(self)@ == update_spec(old(self)@, num_cols as nat, *cell),
    {
        if num_cols != self.num_cols {
            self.reset();
            self.num_cols = num_cols;
        }
        let point = cell.point;
        let end = if cell.flags.wide_char {
            Point { line: point.line, column: point.column + 1 }
        } else {
            point
        };

        // A skipped cell breaks the run.
        let previous = point.retreat(num_cols, 1);
        let follows = (point.line == 0 && point.column == 0) || match self.last_point {
            Some(last) => last == previous,
            None => false,
        };
        if !follows {
            self.reset();
        }
        self.last_point = Some(end);

        // The spacer before a wrapped wide character continues the URL without
        // feeding the classifier.
        if cell.flags.leading_wide_char_spacer {
            if let Location::Url(_, end_offset) = self.state {
                let end_offset: usize = if end_offset != 0 {
                    end_offset as usize + 1
                } else {
                    0
                };
                if self.has_open_url() {
                    self.extend_url(point, end, cell.fg, end_offset);
                }
            }
            return;
        }

        if !(self.fed_len < 65535 && self.fed_parens < 255 && self.fed_brackets < 255) {
            self.reset();
        }
        let c = cell.character;
        let ghost before = self.input@;
        assert(self.locator == locator_after(before) && has_room(before));
        let location = advance_locator(&mut self.locator, c);
        proof {
            self.input = Ghost(before.push(c));
            assert(self.input@.drop_last() == before);
        }
        self.fed_len = self.fed_len + 1;
        if c == '(' {
            self.fed_parens = self.fed_parens + 1;
        }
        if c == '[' {
            self.fed_brackets = self.fed_brackets + 1;
        }
        self.advance_with(cell, location);
    }

    /// Scans a frame's cells in order on a grid `num_cols` wide, one `update` each.
    pub fn update_all(&mut self, num_cols: usize, cells: &Vec<RenderableCell>)
        requires
            old(self).wf(),
            num_cols > 0,
            forall|i: int| 0 <= i < cells@.len() ==> cell_fits(#[trigger] cells@[i], num_cols as nat),
        ensures
            final(self).wf(),
            final(self)@ == scan_spec(old(self)@, num_cols as nat, cells@),
    {
        let ghost start = self@;
        let mut i: usize = 0;
        while i < cells.len()
            invariant
                self.wf(),
                num_cols > 0,
                i <= cells@.len(),
                forall|k: int| 0 <= k < cells@.len() ==> cell_fits(#[trigger] cells@[k], num_cols as nat),
                self@ == scan_spec(start, num_cols as nat, cells@.subrange(0, i as int)),
            decreases cells@.len() - i,
        {
            assert(cells@.subrange(0, i + 1).drop_last() == cells@.subrange(0, i as int));
            self.update(num_cols, &cells[i]);
            i = i + 1;
        }
        assert(cells@.subrange(0, cells@.len() as int) == cells@);
    }
}

impl Default for Urls {
    fn default() -> (r: Urls)
        ensures
            r.wf(),
            r@.urls.len() == 0,
            r@.scheme_buffer.len() == 0,
            r@.last_point is None,
            r@.state == Location::Reset,
            r@.input.len() == 0,
            r@.num_cols == 0,
    {
        Urls::new()
    }
}

/// Extends `lines` by one cell, as `extended_lines` says.
fn extend_lines(lines: &mut Vec<RenderLine>, start: Point, end: Point, color: Rgb)
    ensures
        final(lines)@ == extended_lines(old(lines)@, start, end, color),
{
    let n = lines.len();
    if n > 0 && lines[n - 1].color == color {
        let last = lines[n - 1];
        lines.set(n - 1, RenderLine { start: last.start, end, color: last.color });
    } else {
        lines.push(RenderLine { start, end, color });
    }
}

/// The runs that the buffered scheme cells make.
fn flush(buffer: &Vec<(Point, Rgb)>, num_cols: usize) -> (r: Vec<RenderLine>)
    requires
        forall|i: int| 0 <= i < buffer@.len() ==> (#[trigger] buffer@[i]).0.column < num_cols,
    ensures
        r@ == flushed_lines(Seq::empty(), buffer@),
        forall|i: int| 0 <= i < r@.len() ==> line_fits(#[trigger] r@[i], num_cols as nat),
{
    let mut lines: Vec<RenderLine> = Vec::new();
    let mut i: usize = 0;
    while i < buffer.len()
        invariant
            i <= buffer@.len(),
            forall|j: int| 0 <= j < buffer@.len() ==> (#[trigger] buffer@[j]).0.column < num_cols,
            lines@ == flushed_lines(Seq::empty(), buffer@.subrange(0, i as int)),
            forall|j: int| 0 <= j < lines@.len() ==> line_fits(#[trigger] lines@[j], num_cols as nat),
        decreases buffer@.len() - i,
    {
        let (p, c) = buffer[i];
        proof {
            assert(buffer@.subrange(0, i + 1).drop_last() == buffer@.subrange(0, i as int));
            lemma_extended_fits(lines@, p, p, c, num_cols as nat);
        }
        extend_lines(&mut lines, p, p, c);
        i = i + 1;
    }
    assert(buffer@.subrange(0, buffer@.len() as int) == buffer@);
    lines
}

proof fn lemma_extended_fits(
    lines: Seq<RenderLine>,
    start: Point,
    end: Point,
    color: Rgb,
    num_cols: nat,
)
    requires
        forall|i: int| 0 <= i < lines.len() ==> line_fits(#[trigger] lines[i], num_cols),
        start.column < num_cols,
        end.column < num_cols,
    ensures
        ({
            let r = extended_lines(lines, start, end, color);
            &&& r.len() > 0
            &&& forall|i: int| 0 <= i < r.len() ==> line_fits(#[trigger] r[i], num_cols)
        }),
{
    let r = extended_lines(lines, start, end, color);
    assert forall|i: int| 0 <= i < r.len() implies line_fits(#[trigger] r[i], num_cols) by {
        if i < lines.len() {
            assert(line_fits(lines[i], num_cols));
        }
    }
}

} // verus!
