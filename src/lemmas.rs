//! Facts about scanning that relate several updates.

use vstd::prelude::*;

use crate::locator::{has_room, location_after, Location};
use crate::point::{index_of, point_at, point_le, retreat_spec, Point, Rgb};
use crate::url::{
    advance_with_spec, at_hard_break, cell_end, extended_last, extended_lines, flushed_lines,
    follows, has_open_url, reset_spec, scan_spec, update_spec, RenderLine, RenderableCell,
    UrlView, UrlsView,
};

verus! {

/// Scanning a sequence of cells in two parts, the second continuing from the state the
/// first left, gives the same state as scanning it in one go.
pub proof fn lemma_scan_in_parts(
    s: UrlsView,
    num_cols: nat,
    first: Seq<RenderableCell>,
    second: Seq<RenderableCell>,
)
    ensures
        scan_spec(s, num_cols, first + second) == scan_spec(
            scan_spec(s, num_cols, first),
            num_cols,
            second,
        ),
    decreases second.len(),
{
    if second.len() == 0 {
        assert(first + second == first);
    } else {
        assert((first + second).drop_last() == first + second.drop_last());
        assert((first + second).last() == second.last());
        lemma_scan_in_parts(s, num_cols, first, second.drop_last());
    }
}

/// The last cell of a row that does not wrap ends any URL or scheme in progress: the
/// classifier starts over, and the next cell, whatever it is, extends no URL.
pub proof fn lemma_hard_break_ends_url(
    s: UrlsView,
    num_cols: nat,
    cell: RenderableCell,
    next: RenderableCell,
)
    requires
        at_hard_break(cell, num_cols),
        !cell.flags.leading_wide_char_spacer,
    ensures
        update_spec(s, num_cols, cell).state == Location::Reset,
        update_spec(s, num_cols, cell).scheme_buffer.len() == 0,
        update_spec(s, num_cols, cell).input.len() == 0,
        update_spec(update_spec(s, num_cols, cell), num_cols, next).urls == update_spec(
            s,
            num_cols,
            cell,
        ).urls,
{
}

/// Extending a URL with a cell of its last run's color keeps the number of runs and
/// every run but the last; only the last run's end and the trailing exclusion change.
pub proof fn lemma_same_color_keeps_runs(s: UrlsView, location: Location, cell: RenderableCell)
    requires
        s.state is Url,
        location is Url,
        has_open_url(s),
        s.urls.last().lines.len() > 0,
        s.urls.last().lines.last().color == cell.fg,
    ensures
        ({
            let r = advance_with_spec(s, location, cell);
            let old_lines = s.urls.last().lines;
            let new_lines = r.urls.last().lines;
            &&& r.urls.len() == s.urls.len()
            &&& r.urls.subrange(0, s.urls.len() - 1) == s.urls.subrange(0, s.urls.len() - 1)
            &&& new_lines.len() == old_lines.len()
            &&& new_lines.subrange(0, old_lines.len() - 1) == old_lines.subrange(
                0,
                old_lines.len() - 1,
            )
            &&& new_lines.last().start == old_lines.last().start
            &&& new_lines.last().color == old_lines.last().color
            &&& r.urls.last().end_offset == location->Url_1 as nat
        }),
{
    let r = advance_with_spec(s, location, cell);
    assert(r.urls.subrange(0, s.urls.len() - 1) =~= s.urls.subrange(0, s.urls.len() - 1));
    let old_lines = s.urls.last().lines;
    let new_lines = r.urls.last().lines;
    assert(new_lines.subrange(0, old_lines.len() - 1) =~= old_lines.subrange(
        0,
        old_lines.len() - 1,
    ));
}

/// Extending a URL with a cell of another color than its last run opens a new run that
/// starts at that cell; the URL's end is the same as it would be without the change.
pub proof fn lemma_color_change_opens_run(s: UrlsView, location: Location, cell: RenderableCell)
    requires
        s.state is Url,
        location is Url,
        has_open_url(s),
        s.urls.last().lines.len() > 0,
        s.urls.last().lines.last().color != cell.fg,
    ensures
        ({
            let r = advance_with_spec(s, location, cell);
            let u = r.urls.last();
            &&& r.urls.len() == s.urls.len()
            &&& u.lines == s.urls.last().lines.push(
                RenderLine { start: cell.point, end: cell_end(cell), color: cell.fg },
            )
            &&& u.end() == retreat_spec(cell_end(cell), s.num_cols, location->Url_1 as nat)
        }),
{
}

/// A wide character that continues a URL takes the column after it too: the URL's last
/// run ends one column past the cell.
pub proof fn lemma_wide_cell_ends_next_column(
    s: UrlsView,
    location: Location,
    cell: RenderableCell,
)
    requires
        s.state is Url,
        location is Url,
        has_open_url(s),
        cell.flags.wide_char,
    ensures
        advance_with_spec(s, location, cell).urls.last().lines.last().end == (Point {
            line: cell.point.line,
            column: (cell.point.column + 1) as usize,
        }),
{
}

/// Two URLs with the same first cell, last cell, trailing exclusion and width, however
/// their runs are colored.
pub open spec fn same_bounds(a: UrlView, b: UrlView) -> bool {
    &&& a.lines.len() > 0
    &&& b.lines.len() > 0
    &&& a.lines[0].start == b.lines[0].start
    &&& a.lines.last().end == b.lines.last().end
    &&& a.end_offset == b.end_offset
    &&& a.num_cols == b.num_cols
}

/// Two tracker states that differ at most in colors.
pub open spec fn same_but_colors(s: UrlsView, t: UrlsView) -> bool {
    &&& s.urls.len() == t.urls.len()
    &&& forall|i: int| 0 <= i < s.urls.len() ==> same_bounds(#[trigger] s.urls[i], t.urls[i])
    &&& s.scheme_buffer.len() == t.scheme_buffer.len()
    &&& forall|i: int|
        0 <= i < s.scheme_buffer.len() ==> (#[trigger] s.scheme_buffer[i]).0
            == t.scheme_buffer[i].0
    &&& s.last_point == t.last_point
    &&& s.state == t.state
    &&& s.input == t.input
    &&& s.num_cols == t.num_cols
}

/// Two cell sequences that differ at most in foreground colors.
pub open spec fn recolored(a: Seq<RenderableCell>, b: Seq<RenderableCell>) -> bool {
    &&& a.len() == b.len()
    &&& forall|i: int| 0 <= i < a.len() ==> (#[trigger] a[i]) == (RenderableCell { fg: a[i].fg, ..b[i] })
}

/// Colors decide only how a URL is cut into runs: scanning two cell sequences that differ
/// only in foreground colors finds as many URLs, with the same starts and ends.
pub proof fn lemma_colors_keep_bounds(
    s: UrlsView,
    num_cols: nat,
    a: Seq<RenderableCell>,
    b: Seq<RenderableCell>,
)
    requires
        forall|i: int| 0 <= i < s.urls.len() ==> (#[trigger] s.urls[i]).lines.len() > 0,
        recolored(a, b),
    ensures
        scan_spec(s, num_cols, a).urls.len() == scan_spec(s, num_cols, b).urls.len(),
        forall|i: int|
            0 <= i < scan_spec(s, num_cols, a).urls.len() ==> (#[trigger] scan_spec(
                s,
                num_cols,
                a,
            ).urls[i]).start() == scan_spec(s, num_cols, b).urls[i].start() && scan_spec(
                s,
                num_cols,
                a,
            ).urls[i].end() == scan_spec(s, num_cols, b).urls[i].end(),
{
    lemma_scan_same_but_colors(s, s, num_cols, a, b);
    let x = scan_spec(s, num_cols, a);
    let y = scan_spec(s, num_cols, b);
    assert forall|i: int| 0 <= i < x.urls.len() implies (#[trigger] x.urls[i]).start()
        == y.urls[i].start() && x.urls[i].end() == y.urls[i].end() by {
        assert(same_bounds(x.urls[i], y.urls[i]));
    }
}

proof fn lemma_scan_same_but_colors(
    s: UrlsView,
    t: UrlsView,
    num_cols: nat,
    a: Seq<RenderableCell>,
    b: Seq<RenderableCell>,
)
    requires
        recolored(a, b),
        same_but_colors(s, t),
    ensures
        same_but_colors(scan_spec(s, num_cols, a), scan_spec(t, num_cols, b)),
    decreases a.len(),
{
    if a.len() > 0 {
        let n = a.len() - 1;
        assert(a[n] == (RenderableCell { fg: a[n].fg, ..b[n] }));
        assert(recolored(a.drop_last(), b.drop_last())) by {
            assert forall|i: int| 0 <= i < a.drop_last().len() implies (#[trigger] a.drop_last()[i])
                == (RenderableCell { fg: a.drop_last()[i].fg, ..b.drop_last()[i] }) by {
                assert(a[i] == (RenderableCell { fg: a[i].fg, ..b[i] }));
            }
        }
        lemma_scan_same_but_colors(s, t, num_cols, a.drop_last(), b.drop_last());
        lemma_update_same_but_colors(
            scan_spec(s, num_cols, a.drop_last()),
            scan_spec(t, num_cols, b.drop_last()),
            num_cols,
            a.last(),
            b.last(),
        );
    }
}

proof fn lemma_update_same_but_colors(
    s: UrlsView,
    t: UrlsView,
    num_cols: nat,
    c: RenderableCell,
    d: RenderableCell,
)
    requires
        same_but_colors(s, t),
        c == (RenderableCell { fg: c.fg, ..d }),
    ensures
        same_but_colors(update_spec(s, num_cols, c), update_spec(t, num_cols, d)),
{
    let s1 = if num_cols != s.num_cols {
        UrlsView { num_cols, ..reset_spec(s) }
    } else {
        s
    };
    let t1 = if num_cols != t.num_cols {
        UrlsView { num_cols, ..reset_spec(t) }
    } else {
        t
    };
    let s2 = if follows(c.point, num_cols, s1.last_point) {
        s1
    } else {
        reset_spec(s1)
    };
    let t2 = if follows(d.point, num_cols, t1.last_point) {
        t1
    } else {
        reset_spec(t1)
    };
    let s3 = UrlsView { last_point: Some(cell_end(c)), ..s2 };
    let t3 = UrlsView { last_point: Some(cell_end(d)), ..t2 };
    assert(same_but_colors(s3, t3));
    if c.flags.leading_wide_char_spacer {
        if s3.state is Url && has_open_url(s3) {
            let e = s3.state->Url_1;
            let off: nat = if e != 0 {
                (e + 1) as nat
            } else {
                0
            };
            lemma_extended_last_same(s3, t3, c.point, cell_end(c), c.fg, d.fg, off);
        }
    } else {
        let s4 = if has_room(s3.input) {
            s3
        } else {
            reset_spec(s3)
        };
        let t4 = if has_room(t3.input) {
            t3
        } else {
            reset_spec(t3)
        };
        let input = s4.input.push(c.character);
        lemma_advance_same_but_colors(
            UrlsView { input, ..s4 },
            UrlsView { input, ..t4 },
            location_after(input),
            c,
            d,
        );
    }
}

proof fn lemma_extended_last_same(
    s: UrlsView,
    t: UrlsView,
    start: Point,
    end: Point,
    c1: Rgb,
    c2: Rgb,
    off: nat,
)
    requires
        same_but_colors(s, t),
        s.urls.len() > 0,
    ensures
        same_but_colors(
            UrlsView { urls: extended_last(s.urls, start, end, c1, off), ..s },
            UrlsView { urls: extended_last(t.urls, start, end, c2, off), ..t },
        ),
{
    let n = s.urls.len() - 1;
    assert(same_bounds(s.urls[n], t.urls[n]));
    lemma_extended_bounds(s.urls[n].lines, start, end, c1);
    lemma_extended_bounds(t.urls[n].lines, start, end, c2);
    let x = extended_last(s.urls, start, end, c1, off);
    let y = extended_last(t.urls, start, end, c2, off);
    assert forall|i: int| 0 <= i < x.len() implies same_bounds(#[trigger] x[i], y[i]) by {
        if i < n {
            assert(same_bounds(s.urls[i], t.urls[i]));
        }
    }
}

proof fn lemma_advance_same_but_colors(
    s: UrlsView,
    t: UrlsView,
    location: Location,
    c: RenderableCell,
    d: RenderableCell,
)
    requires
        same_but_colors(s, t),
        c == (RenderableCell { fg: c.fg, ..d }),
    ensures
        same_but_colors(advance_with_spec(s, location, c), advance_with_spec(t, location, d)),
{
    let s1 = UrlsView { state: location, ..s };
    let t1 = UrlsView { state: location, ..t };
    match (location, s.state) {
        (Location::Url(_, e), Location::Scheme) => {
            lemma_flushed_bounds(s.scheme_buffer);
            lemma_flushed_bounds(t.scheme_buffer);
            let fs = flushed_lines(Seq::empty(), s.scheme_buffer);
            let ft = flushed_lines(Seq::empty(), t.scheme_buffer);
            lemma_extended_bounds(fs, c.point, cell_end(c), c.fg);
            lemma_extended_bounds(ft, d.point, cell_end(d), d.fg);
            if s.scheme_buffer.len() > 0 {
                assert(s.scheme_buffer[0].0 == t.scheme_buffer[0].0);
            }
            let x = advance_with_spec(s, location, c).urls;
            let y = advance_with_spec(t, location, d).urls;
            if !at_hard_break(c, s.num_cols) {
                assert forall|i: int| 0 <= i < x.len() implies same_bounds(#[trigger] x[i], y[i]) by {
                    if i < s.urls.len() {
                        assert(same_bounds(s.urls[i], t.urls[i]));
                    }
                }
            } else {
                assert forall|i: int| 0 <= i < x.len() implies same_bounds(#[trigger] x[i], y[i]) by {
                    if i < s.urls.len() {
                        assert(same_bounds(s.urls[i], t.urls[i]));
                    }
                }
            }
        },
        (Location::Url(_, e), Location::Url(_, _)) => {
            if has_open_url(s) {
                lemma_extended_last_same(s1, t1, c.point, cell_end(c), c.fg, d.fg, e as nat);
            }
        },
        (Location::Scheme, _) => {
            let x = s.scheme_buffer.push((c.point, c.fg));
            let y = t.scheme_buffer.push((d.point, d.fg));
            assert forall|i: int| 0 <= i < x.len() implies (#[trigger] x[i]).0 == y[i].0 by {
                if i < s.scheme_buffer.len() {
                    assert(s.scheme_buffer[i].0 == t.scheme_buffer[i].0);
                }
            }
        },
        _ => {},
    }
}

proof fn lemma_extended_bounds(lines: Seq<RenderLine>, start: Point, end: Point, color: Rgb)
    ensures
        ({
            let r = extended_lines(lines, start, end, color);
            &&& r.len() > 0
            &&& r.last().end == end
            &&& r[0].start == if lines.len() == 0 {
                start
            } else {
                lines[0].start
            }
        }),
{
}

proof fn lemma_flushed_bounds(buffer: Seq<(Point, Rgb)>)
    ensures
        buffer.len() == 0 ==> flushed_lines(Seq::empty(), buffer).len() == 0,
        buffer.len() > 0 ==> {
            let r = flushed_lines(Seq::empty(), buffer);
            &&& r.len() > 0
            &&& r[0].start == buffer[0].0
            &&& r.last().end == buffer.last().0
        },
    decreases buffer.len(),
{
    if buffer.len() > 0 {
        let (p, c) = buffer.last();
        lemma_flushed_bounds(buffer.drop_last());
        lemma_extended_bounds(flushed_lines(Seq::empty(), buffer.drop_last()), p, p, c);
    }
}

/// A larger trailing exclusion moves a URL's end back, never forward, and leaves its
/// runs as they are.
pub proof fn lemma_trailing_exclusion_shrinks(u: UrlView, end_offset: nat)
    requires
        u.wf(),
        u.end_offset <= end_offset,
    ensures
        point_le((UrlView { end_offset, ..u }).end(), u.end()),
        (UrlView { end_offset, ..u }).lines == u.lines,
        (UrlView { end_offset, ..u }).start() == u.start(),
{
    let w = u.num_cols;
    let p = u.lines.last();
    assert(crate::url::line_fits(u.lines[u.lines.len() - 1], w));
    let a = retreat_spec(p.end, w, end_offset);
    let b = retreat_spec(p.end, w, u.end_offset);
    lemma_retreat_index(p.end, w, end_offset);
    lemma_retreat_index(p.end, w, u.end_offset);
    lemma_index_order(a, b, w);
}

proof fn lemma_retreat_index(p: Point, w: nat, n: nat)
    requires
        0 < w <= usize::MAX,
        p.column < w,
    ensures
        retreat_spec(p, w, n).column < w,
        index_of(retreat_spec(p, w, n), w) == if index_of(p, w) >= n {
            index_of(p, w) - n
        } else {
            0
        },
{
    if index_of(p, w) >= n {
        let q = (index_of(p, w) - n) as nat;
        let r = point_at(q, w);
        assert(q == (q / w) * w + q % w && q % w < w) by (nonlinear_arith)
            requires
                w > 0,
        ;
        assert(q / w <= q) by (nonlinear_arith)
            requires
                w > 0,
        ;
        assert(index_of(p, w) >= 0) by (nonlinear_arith)
            requires
                w > 0,
        ;
        assert(q <= p.line * w + p.column);
        assert(p.line * w + p.column <= usize::MAX * w + usize::MAX) by (nonlinear_arith)
            requires
                w > 0,
                p.line <= usize::MAX,
                p.column <= usize::MAX,
        ;
        lemma_quotient_fits(p, w, q);
        assert(r.line == q / w);
        assert(r.column == q % w);
        assert(index_of(r, w) == q) by (nonlinear_arith)
            requires
                r.line == q / w,
                r.column == q % w,
                q == (q / w) * w + q % w,
                index_of(r, w) == r.line * w + r.column,
        ;
        assert(retreat_spec(p, w, n) == r);
    } else {
        assert(index_of(Point { line: 0, column: 0 }, w) == 0);
    }
}

proof fn lemma_quotient_fits(p: Point, w: nat, q: nat)
    requires
        w > 0,
        p.column < w,
        q <= p.line * w + p.column,
    ensures
        q / w <= p.line,
{
    assert((p.line * w + p.column) as int / w as int == p.line as int) by (nonlinear_arith)
        requires
            w > 0,
            p.column < w,
    ;
    vstd::arithmetic::div_mod::lemma_div_is_ordered(q as int, (p.line * w + p.column) as int, w as int);
}

proof fn lemma_index_order(a: Point, b: Point, w: nat)
    requires
        w > 0,
        a.column < w,
        b.column < w,
        index_of(a, w) <= index_of(b, w),
    ensures
        point_le(a, b),
{
    if a.line > b.line {
        assert(index_of(a, w) > index_of(b, w)) by (nonlinear_arith)
            requires
                a.line > b.line,
                b.column < w,
                index_of(a, w) == a.line * w + a.column,
                index_of(b, w) == b.line * w + b.column,
        ;
    }
}

} // verus!
