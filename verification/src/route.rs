//! Route manifests: route legs, waypoints, and the checks on them.
use vstd::prelude::*;
use vstd::utf8::encode_utf8;
use crate::catalog::{profile_bias, route_profile_by_name, signal_precision, signal_by_name, SIGNAL_SPEC_COUNT};
use crate::checksum::{rolling_tag, rotate_left32, rotl32, tag_acc};
use crate::error::{Diagnostics, IronfleetError, ErrorView, diag, Severity, Result};
use crate::fields::{
    either, or_default, find_either, text_or, opt_u32, u32_or, opt_decimal, decimal_or,
    spec_tags, tags_of, };
use crate::model::{RouteLeg, RouteView, Waypoint, WaypointView, strings_view};
use crate::strings::{chars_of, string_of, span_is};
use crate::text::{
    PairSpan, spans_within, pairs_view, spec_parse_pairs, spec_find_pair, find_span,
    pair_spans, record_spans, spec_split_record, span_lower_is, ascii_lower, line_at, next_line,
    line_bounds, lossy_text, lossy_chars, };

verus! {

/// What a route record's pairs describe, or the error in one of its fields.
pub open spec fn spec_route_leg(pairs: Seq<(Seq<char>, Seq<char>)>) -> core::result::Result<RouteView, ErrorView> {
    let id = or_default(spec_find_pair(pairs, "id"@), "route-unknown"@);
    let origin = or_default(either(spec_find_pair(pairs, "from"@), spec_find_pair(pairs, "origin"@)), "UNKNOWN"@);
    let destination = or_default(
        either(spec_find_pair(pairs, "to"@), spec_find_pair(pairs, "destination"@)),
        "UNKNOWN"@,
    );
    match opt_u32(either(spec_find_pair(pairs, "distance"@), spec_find_pair(pairs, "meters"@)), 0) {
        Err(e) => Err(e),
        Ok(distance_m) => match opt_u32(spec_find_pair(pairs, "risk"@), 0) {
            Err(e) => Err(e),
            Ok(r) => {
                let base: u8 = if r < 100 { r as u8 } else { 100u8 };
                let risk: u8 = match spec_find_pair(pairs, "profile"@) {
                    Some(p) => match profile_bias(p) {
                        Some(b) => {
                            let sat = if base + b > 255 { 255 } else { base + b };
                            (if sat < 100 { sat } else { 100 }) as u8
                        },
                        None => base,
                    },
                    None => base,
                };
                Ok(
                    RouteView {
                        id,
                        origin,
                        destination,
                        distance_m,
                        risk,
                        tags: spec_tags(spec_find_pair(pairs, "tags"@)),
                    },
                )
            },
        },
    }
}

/// What a waypoint record's pairs describe, or the error in one of its fields.
pub open spec fn spec_waypoint(pairs: Seq<(Seq<char>, Seq<char>)>) -> core::result::Result<WaypointView, ErrorView> {
    let route = or_default(spec_find_pair(pairs, "route"@), "route-unknown"@);
    match opt_u32(either(spec_find_pair(pairs, "index"@), spec_find_pair(pairs, "idx"@)), 0) {
        Err(e) => Err(e),
        Ok(index) => match opt_decimal(spec_find_pair(pairs, "lat"@), "0"@) {
            Err(e) => Err(e),
            Ok(lat) => match opt_decimal(spec_find_pair(pairs, "lon"@), "0"@) {
                Err(e) => Err(e),
                Ok(lon) => match opt_u32(spec_find_pair(pairs, "dwell"@), 0) {
                    Err(e) => Err(e),
                    Ok(dwell_seconds) => Ok(WaypointView { route, index, lat, lon, dwell_seconds }),
                },
            },
        },
    }
}

pub open spec fn route_result_view(r: core::result::Result<RouteLeg, IronfleetError>) -> core::result::Result<
    RouteView,
    ErrorView,
> {
    match r {
        Ok(v) => Ok(v@),
        Err(e) => Err(e@),
    }
}

pub open spec fn waypoint_result_view(r: core::result::Result<Waypoint, IronfleetError>) -> core::result::Result<
    WaypointView,
    ErrorView,
> {
    match r {
        Ok(v) => Ok(v@),
        Err(e) => Err(e@),
    }
}

/// The route leg described by the pairs `pairs` of the buffer `t`.
pub fn route_from_pairs(t: &[char], pairs: &Vec<PairSpan>) -> (r: Result<RouteLeg>)
    requires
        spans_within(pairs@, 0, t@.len() as int),
    ensures
        route_result_view(r) == spec_route_leg(pairs_view(t@, pairs@)),
{
    let id = text_or(t, find_span(t, pairs, "id"), "route-unknown");
    let origin = text_or(t, find_either(t, pairs, "from", "origin"), "UNKNOWN");
    let destination = text_or(t, find_either(t, pairs, "to", "destination"), "UNKNOWN");
    let distance_m = u32_or(t, find_either(t, pairs, "distance", "meters"), 0)?;
    let r = u32_or(t, find_span(t, pairs, "risk"), 0)?;
    let mut risk: u8 = if r < 100 { r as u8 } else { 100 };
    match find_span(t, pairs, "profile") {
        Some(p) => match route_profile_by_name(t, p.0, p.1) {
            Some(profile) => {
                let sum: u16 = risk as u16 + profile.risk_bias as u16;
                let sat: u16 = if sum > 255 { 255 } else { sum };
                risk = if sat < 100 { sat as u8 } else { 100 };
            },
            None => {},
        },
        None => {},
    }
    let tags = tags_of(t, find_span(t, pairs, "tags"));
    Ok(RouteLeg { id, origin, destination, distance_m, risk, tags })
}

/// The waypoint described by the pairs `pairs` of the buffer `t`.
pub fn waypoint_from_pairs(t: &[char], pairs: &Vec<PairSpan>) -> (r: Result<Waypoint>)
    requires
        spans_within(pairs@, 0, t@.len() as int),
    ensures
        waypoint_result_view(r) == spec_waypoint(pairs_view(t@, pairs@)),
{
    let route = text_or(t, find_span(t, pairs, "route"), "route-unknown");
    let index = u32_or(t, find_either(t, pairs, "index", "idx"), 0)?;
    let lat = decimal_or(t, find_span(t, pairs, "lat"), "0")?;
    let lon = decimal_or(t, find_span(t, pairs, "lon"), "0")?;
    let dwell_seconds = u32_or(t, find_span(t, pairs, "dwell"), 0)?;
    Ok(Waypoint { route, index, lat, lon, dwell_seconds })
}

pub fn parse_route_line(rest: &str) -> (r: Result<RouteLeg>)
    ensures
        route_result_view(r) == spec_route_leg(spec_parse_pairs(rest@)),
{
    let t = chars_of(rest);
    assert(t@.subrange(0, t@.len() as int) =~= t@);
    let pairs = pair_spans(&t, 0, t.len());
    route_from_pairs(&t, &pairs)
}

pub fn parse_waypoint_line(rest: &str) -> (r: Result<Waypoint>)
    ensures
        waypoint_result_view(r) == spec_waypoint(spec_parse_pairs(rest@)),
{
    let t = chars_of(rest);
    assert(t@.subrange(0, t@.len() as int) =~= t@);
    let pairs = pair_spans(&t, 0, t.len());
    waypoint_from_pairs(&t, &pairs)
}

/// A route book: routes and waypoints in input order, the diagnostics raised
/// while reading them, and a running score.
#[derive(Debug, Clone)]
pub struct RouteBook {
    pub routes: Vec<RouteLeg>,
    pub waypoints: Vec<Waypoint>,
    pub diagnostics: Diagnostics,
    pub score: u32,
}

pub struct BookView {
    pub routes: Seq<RouteView>,
    pub waypoints: Seq<WaypointView>,
    pub diagnostics: Seq<ErrorView>,
    pub score: u32,
}

pub open spec fn routes_view(v: Seq<RouteLeg>) -> Seq<RouteView> {
    v.map_values(|r: RouteLeg| r@)
}

pub open spec fn waypoints_view(v: Seq<Waypoint>) -> Seq<WaypointView> {
    v.map_values(|w: Waypoint| w@)
}

impl View for RouteBook {
    type V = BookView;

    open spec fn view(&self) -> BookView {
        BookView {
            routes: routes_view(self.routes@),
            waypoints: waypoints_view(self.waypoints@),
            diagnostics: self.diagnostics@,
            score: self.score,
        }
    }
}

pub open spec fn empty_book() -> BookView {
    BookView { routes: Seq::empty(), waypoints: Seq::empty(), diagnostics: Seq::empty(), score: 0 }
}

impl Default for RouteBook {
    fn default() -> (r: Self)
        ensures
            r@ == empty_book(),
    {
        let r = RouteBook { routes: Vec::new(), waypoints: Vec::new(), diagnostics: Diagnostics::new(), score: 0 };
        assert(r@.routes =~= Seq::<RouteView>::empty());
        assert(r@.waypoints =~= Seq::<WaypointView>::empty());
        r
    }
}

/// The diagnostics that one route leg raises.
pub open spec fn route_checks(r: RouteView) -> Seq<ErrorView> {
    let same = if r.origin == r.destination {
        seq![diag(Severity::Low, "route origin matches destination"@).with_context(r.id)]
    } else {
        Seq::empty()
    };
    let zero = if r.distance_m == 0 {
        seq![diag(Severity::Medium, "route has zero distance"@).with_context(r.id)]
    } else {
        Seq::empty()
    };
    let risky = if r.risk > 90 && !r.tags.contains("escort"@) {
        seq![diag(Severity::High, "high-risk route lacks escort tag"@).with_context(r.id)]
    } else {
        Seq::empty()
    };
    same + zero + risky
}

/// The diagnostics of all route legs, in order.
pub open spec fn routes_checks(rs: Seq<RouteView>) -> Seq<ErrorView>
    decreases rs.len(),
{
    if rs.len() == 0 {
        Seq::empty()
    } else {
        routes_checks(rs.drop_last()) + route_checks(rs.last())
    }
}

/// Whether two strings hold the same text.
fn same_text(a: &String, b: &String) -> (r: bool)
    ensures
        r == (a@ == b@),
{
    let x = chars_of(a.as_str());
    assert(x@.subrange(0, x@.len() as int) =~= x@);
    span_is(&x, 0, x.len(), b.as_str())
}

fn has_escort(tags: &Vec<String>) -> (r: bool)
    ensures
        r == strings_view(tags@).contains("escort"@),
{
    let mut i: usize = 0;
    while i < tags.len()
        invariant
            i <= tags@.len(),
            forall|j: int| 0 <= j < i ==> strings_view(tags@)[j] != "escort"@,
        decreases tags@.len() - i,
    {
        let x = chars_of(tags[i].as_str());
        assert(x@.subrange(0, x@.len() as int) =~= x@);
        if span_is(&x, 0, x.len(), "escort") {
            assert(strings_view(tags@)[i as int] == "escort"@);
            return true;
        }
        i += 1;
    }
    false
}

impl RouteBook {
    /// Adds the diagnostics of every route leg: origin equal to destination,
    /// zero distance, and risk above 90 without an `escort` tag.  (Whether a
    /// waypoint's coordinates lie in range is a floating-point comparison and
    /// is checked by the caller.)
    pub fn validate(&mut self)
        ensures
            final(self)@ == (BookView { diagnostics: old(self)@.diagnostics + routes_checks(old(self)@.routes), ..old(self)@ }),
    {
        let mut i: usize = 0;
        let ghost base = self@;
        while i < self.routes.len()
            invariant
                i <= self.routes@.len(),
                self@.routes == base.routes,
                self@.waypoints == base.waypoints,
                self@.score == base.score,
                self@.diagnostics == base.diagnostics + routes_checks(base.routes.take(i as int)),
            decreases self.routes@.len() - i,
        {
            let ghost before = self@.diagnostics;
            let ghost rv = self.routes@[i as int]@;
            assert(base.routes.take(i + 1).drop_last() =~= base.routes.take(i as int));
            assert(base.routes.take(i + 1).last() == rv);
            if same_text(&self.routes[i].origin, &self.routes[i].destination) {
                let e = IronfleetError::low("route origin matches destination").with_context(self.routes[i].id.clone());
                self.diagnostics.push(e);
            }
            if self.routes[i].distance_m == 0 {
                let e = IronfleetError::medium("route has zero distance").with_context(self.routes[i].id.clone());
                self.diagnostics.push(e);
            }
            if self.routes[i].risk > 90 && !has_escort(&self.routes[i].tags) {
                let e = IronfleetError::high("high-risk route lacks escort tag").with_context(self.routes[i].id.clone());
                self.diagnostics.push(e);
            }
            assert(self@.diagnostics =~= before + route_checks(rv));
            i += 1;
        }
        assert(base.routes.take(i as int) =~= base.routes);
    }

    /// The coordinate part of validation: given, for each waypoint in order,
    /// whether its coordinates lie within latitude ±90 and longitude ±180,
    /// adds a medium diagnostic for each waypoint that does not.
    pub fn add_coordinate_checks(&mut self, in_range: &[bool])
        requires
            in_range@.len() == old(self)@.waypoints.len(),
        ensures
            final(self)@ == (BookView {
                diagnostics: old(self)@.diagnostics + coordinate_checks(old(self)@.waypoints, in_range@),
                ..old(self)@
            }),
    {
        let mut i: usize = 0;
        let ghost base = self@;
        while i < self.waypoints.len()
            invariant
                i <= self.waypoints@.len(),
                in_range@.len() == base.waypoints.len(),
                self@.routes == base.routes,
                self@.waypoints == base.waypoints,
                self@.score == base.score,
                self@.diagnostics == base.diagnostics + coordinate_checks(
                    base.waypoints.take(i as int),
                    in_range@.take(i as int),
                ),
            decreases self.waypoints@.len() - i,
        {
            let ghost before = self@.diagnostics;
            assert(base.waypoints.take(i + 1).drop_last() =~= base.waypoints.take(i as int));
            assert(in_range@.take(i + 1).drop_last() =~= in_range@.take(i as int));
            assert(base.waypoints.take(i + 1).last() == self.waypoints@[i as int]@);
            if !in_range[i] {
                let e = IronfleetError::medium("waypoint coordinate outside range").with_context(
                    self.waypoints[i].route.clone(),
                );
                self.diagnostics.push(e);
            }
            assert(self@.diagnostics =~= base.diagnostics + coordinate_checks(
                base.waypoints.take(i + 1),
                in_range@.take(i + 1),
            ));
            i += 1;
        }
        assert(base.waypoints.take(i as int) =~= base.waypoints);
        assert(in_range@.take(i as int) =~= in_range@);
    }

    /// The first route leg with the given id.
    pub fn route_for(&self, id: &str) -> (r: Option<&RouteLeg>)
        ensures
            match r {
                Some(leg) => exists|i: int|
                    0 <= i < self@.routes.len() && self@.routes[i].id == id@ && self.routes@[i] == *leg && forall|j: int|
                        0 <= j < i ==> self@.routes[j].id != id@,
                None => forall|j: int| 0 <= j < self@.routes.len() ==> self@.routes[j].id != id@,
            },
    {
        let mut i: usize = 0;
        while i < self.routes.len()
            invariant
                i <= self.routes@.len(),
                forall|j: int| 0 <= j < i ==> self@.routes[j].id != id@,
            decreases self.routes@.len() - i,
        {
            let x = chars_of(self.routes[i].id.as_str());
            assert(x@.subrange(0, x@.len() as int) =~= x@);
            if span_is(&x, 0, x.len(), id) {
                return Some(&self.routes[i]);
            }
            i += 1;
        }
        None
    }

    /// The waypoints of the route with the given id, in order.
    pub fn waypoints_for(&self, id: &str) -> (r: Vec<&Waypoint>)
        ensures
            r@.map_values(|w: &Waypoint| w@) == self@.waypoints.filter(|w: WaypointView| w.route == id@),
    {
        let mut out: Vec<&Waypoint> = Vec::new();
        let mut i: usize = 0;
        let ghost all = self@.waypoints;
        while i < self.waypoints.len()
            invariant
                i <= self.waypoints@.len(),
                all == self@.waypoints,
                out@.map_values(|w: &Waypoint| w@) == all.take(i as int).filter(|w: WaypointView| w.route == id@),
            decreases self.waypoints@.len() - i,
        {
            let ghost before = out@;
            assert(all.take(i + 1).drop_last() =~= all.take(i as int));
            proof {
                reveal_with_fuel(Seq::<WaypointView>::filter, 1);
            }
            let x = chars_of(self.waypoints[i].route.as_str());
            assert(x@.subrange(0, x@.len() as int) =~= x@);
            if span_is(&x, 0, x.len(), id) {
                out.push(&self.waypoints[i]);
                assert(out@.map_values(|w: &Waypoint| w@) =~= before.map_values(|w: &Waypoint| w@).push(all[i as int]));
            }
            i += 1;
        }
        assert(all.take(i as int) =~= all);
        out
    }
}

/// One route manifest line: what it adds to the book.
pub open spec fn manifest_step(book: BookView, line_no: nat, line: Seq<char>) -> BookView {
    match spec_split_record(line) {
        None => book,
        Some((kind, rest)) => {
            let k = ascii_lower(kind);
            let pairs = spec_parse_pairs(rest);
            let at = line_no as usize;
            if k == "route"@ {
                match spec_route_leg(pairs) {
                    Ok(r) => BookView {
                        score: rotl32(book.score, 3) ^ tag_acc(at as u32, encode_utf8(r.id)),
                        routes: book.routes.push(r),
                        ..book
                    },
                    Err(e) => BookView { diagnostics: book.diagnostics.push(e.at(at)), ..book },
                }
            } else if k == "waypoint"@ {
                match spec_waypoint(pairs) {
                    Ok(w) => BookView {
                        score: rotl32(book.score, 5) ^ w.index,
                        waypoints: book.waypoints.push(w),
                        ..book
                    },
                    Err(e) => BookView { diagnostics: book.diagnostics.push(e.at(at)), ..book },
                }
            } else if k == "sensor"@ {
                match spec_find_pair(pairs, "id"@) {
                    Some(id) => if signal_precision(id) is None {
                        BookView {
                            diagnostics: book.diagnostics.push(
                                diag(Severity::Low, "unknown sensor id in route manifest"@).at(at).with_context(id),
                            ),
                            ..book
                        }
                    } else {
                        book
                    },
                    None => book,
                }
            } else if k == "profile"@ {
                match spec_find_pair(pairs, "name"@) {
                    Some(name) => if profile_bias(name) is None {
                        BookView {
                            diagnostics: book.diagnostics.push(
                                diag(Severity::Low, "unknown route profile"@).at(at).with_context(name),
                            ),
                            ..book
                        }
                    } else {
                        book
                    },
                    None => book,
                }
            } else if k == "iftl/1"@ || k == "ifss/1"@ {
                book
            } else {
                BookView {
                    diagnostics: book.diagnostics.push(
                        diag(Severity::Info, "unhandled route manifest line"@).at(at).with_context(kind),
                    ),
                    ..book
                }
            }
        },
    }
}

/// Reads the manifest lines of `t` from `pos` on into `book`; a book of more
/// than 2048 routes or 8192 waypoints is refused.
pub open spec fn manifest_from(t: Seq<char>, pos: int, line_no: nat, book: BookView) -> core::result::Result<
    BookView,
    ErrorView,
>
    decreases t.len() - pos,
{
    if pos < 0 || pos >= t.len() {
        Ok(book)
    } else {
        proof {
            crate::text::lemma_line_end(t, pos);
        }
        let next = manifest_step(book, line_no, line_at(t, pos));
        if next.routes.len() > 2048 || next.waypoints.len() > 8192 {
            Err(diag(Severity::Medium, "route manifest exceeds decoder limits"@))
        } else {
            manifest_from(t, next_line(t, pos), line_no + 1, next)
        }
    }
}

/// The diagnostics for the waypoints whose coordinates are out of range
/// (`in_range[i]` false), in order.
pub open spec fn coordinate_checks(ws: Seq<WaypointView>, in_range: Seq<bool>) -> Seq<ErrorView>
    decreases ws.len(),
{
    if ws.len() == 0 {
        Seq::empty()
    } else {
        coordinate_checks(ws.drop_last(), in_range.drop_last()) + if in_range.last() {
            Seq::<ErrorView>::empty()
        } else {
            seq![diag(Severity::Medium, "waypoint coordinate outside range"@).with_context(ws.last().route)]
        }
    }
}

/// The book with its route checks added.
pub open spec fn validated(b: BookView) -> BookView {
    BookView { diagnostics: b.diagnostics + routes_checks(b.routes), ..b }
}

/// What `parse_route_manifest` makes of a buffer.
pub open spec fn spec_route_manifest(data: Seq<u8>) -> core::result::Result<BookView, ErrorView> {
    spec_route_text(lossy_text(data))
}

/// What `parse_route_text` makes of a decoded manifest.
pub open spec fn spec_route_text(t: Seq<char>) -> core::result::Result<BookView, ErrorView> {
    match manifest_from(t, 0, 0, empty_book()) {
        Ok(b) => Ok(validated(b)),
        Err(e) => Err(e),
    }
}

pub open spec fn book_result_view(r: core::result::Result<RouteBook, IronfleetError>) -> core::result::Result<
    BookView,
    ErrorView,
> {
    match r {
        Ok(b) => Ok(b@),
        Err(e) => Err(e@),
    }
}

/// One manifest line `t[lo..hi]`.
fn manifest_line(book: &mut RouteBook, t: &[char], lo: usize, hi: usize, line_no: usize)
    requires
        lo <= hi <= t@.len(),
    ensures
        final(book)@ == manifest_step(old(book)@, line_no as nat, t@.subrange(lo as int, hi as int)),
{
    let (kind, rest) = match record_spans(t, lo, hi) {
        None => {
            return;
        },
        Some(p) => p,
    };
    let pairs = pair_spans(t, rest.0, rest.1);
    let ghost pv = pairs_view(t@, pairs@);
    if span_lower_is(t, kind.0, kind.1, "route") {
        match route_from_pairs(t, &pairs) {
            Ok(route) => {
                let tag = rolling_tag(line_no as u32, route.id.as_str().as_bytes());
                book.score = rotate_left32(book.score, 3) ^ tag;
                let ghost before = book.routes@;
                book.routes.push(route);
                assert(routes_view(book.routes@) =~= routes_view(before).push(route@));
            },
            Err(e) => book.diagnostics.push(e.at(line_no)),
        }
    } else if span_lower_is(t, kind.0, kind.1, "waypoint") {
        match waypoint_from_pairs(t, &pairs) {
            Ok(point) => {
                book.score = rotate_left32(book.score, 5) ^ point.index;
                let ghost before = book.waypoints@;
                book.waypoints.push(point);
                assert(waypoints_view(book.waypoints@) =~= waypoints_view(before).push(point@));
            },
            Err(e) => book.diagnostics.push(e.at(line_no)),
        }
    } else if span_lower_is(t, kind.0, kind.1, "sensor") {
        match find_span(t, &pairs, "id") {
            Some(id) => {
                if signal_by_name(t, id.0, id.1).is_none() {
                    book.diagnostics.push(
                        IronfleetError::low("unknown sensor id in route manifest").at(line_no).with_context(
                            string_of(t, id.0, id.1),
                        ),
                    );
                }
            },
            None => {},
        }
    } else if span_lower_is(t, kind.0, kind.1, "profile") {
        match find_span(t, &pairs, "name") {
            Some(name) => {
                if route_profile_by_name(t, name.0, name.1).is_none() {
                    book.diagnostics.push(
                        IronfleetError::low("unknown route profile").at(line_no).with_context(
                            string_of(t, name.0, name.1),
                        ),
                    );
                }
            },
            None => {},
        }
    } else if span_lower_is(t, kind.0, kind.1, "iftl/1") || span_lower_is(t, kind.0, kind.1, "ifss/1") {
    } else {
        book.diagnostics.push(
            IronfleetError::info("unhandled route manifest line").at(line_no).with_context(
                string_of(t, kind.0, kind.1),
            ),
        );
    }
}

pub fn parse_route_manifest(data: &[u8]) -> (r: Result<RouteBook>)
    ensures
        book_result_view(r) == spec_route_manifest(data@),
{
    let t = lossy_chars(data);
    parse_route_text(&t)
}

/// Parses a manifest already decoded to characters.
pub fn parse_route_text(t: &[char]) -> (r: Result<RouteBook>)
    ensures
        book_result_view(r) == spec_route_text(t@),
{
    let mut book = RouteBook::default();
    let mut pos: usize = 0;
    let mut line_no: usize = 0;
    while pos < t.len()
        invariant
            pos <= t@.len(),
            line_no <= pos,
            manifest_from(t@, 0, 0, empty_book()) == manifest_from(t@, pos as int, line_no as nat, book@),
        decreases t@.len() - pos,
    {
        let (lo, hi, next) = line_bounds(t, pos);
        manifest_line(&mut book, t, lo, hi, line_no);
        if book.routes.len() > 2048 || book.waypoints.len() > 8192 {
            return Err(IronfleetError::medium("route manifest exceeds decoder limits"));
        }
        pos = next;
        line_no += 1;
    }
    book.validate();
    Ok(book)
}

/// The digest of a route book's score, legs and waypoints.
pub open spec fn digest_routes(d: u32, rs: Seq<RouteView>) -> u32
    decreases rs.len(),
{
    if rs.len() == 0 {
        d
    } else {
        let r = rs.last();
        rotl32(digest_routes(d, rs.drop_last()), 7) ^ r.distance_m ^ ((r.risk as u32) << 24u32)
    }
}

pub open spec fn digest_waypoints(d: u32, ws: Seq<WaypointView>) -> u32
    decreases ws.len(),
{
    if ws.len() == 0 {
        d
    } else {
        let w = ws.last();
        rotl32(digest_waypoints(d, ws.drop_last()), 3) ^ w.index ^ w.dwell_seconds
    }
}

pub open spec fn spec_route_signal_digest(b: BookView) -> u32 {
    digest_waypoints(digest_routes(b.score ^ SIGNAL_SPEC_COUNT, b.routes), b.waypoints)
}

pub fn route_signal_digest(book: &RouteBook) -> (r: u32)
    ensures
        r == spec_route_signal_digest(book@),
{
    let ghost rs = book@.routes;
    let ghost ws = book@.waypoints;
    let mut digest = book.score ^ SIGNAL_SPEC_COUNT;
    let mut i: usize = 0;
    while i < book.routes.len()
        invariant
            i <= book.routes@.len(),
            rs == book@.routes,
            digest == digest_routes(book.score ^ SIGNAL_SPEC_COUNT, rs.take(i as int)),
        decreases book.routes@.len() - i,
    {
        assert(rs.take(i + 1).drop_last() =~= rs.take(i as int));
        let route = &book.routes[i];
        digest = rotate_left32(digest, 7) ^ route.distance_m ^ ((route.risk as u32) << 24);
        i += 1;
    }
    assert(rs.take(i as int) =~= rs);
    let ghost d0 = digest;
    let mut j: usize = 0;
    while j < book.waypoints.len()
        invariant
            j <= book.waypoints@.len(),
            ws == book@.waypoints,
            digest == digest_waypoints(d0, ws.take(j as int)),
        decreases book.waypoints@.len() - j,
    {
        assert(ws.take(j + 1).drop_last() =~= ws.take(j as int));
        let point = &book.waypoints[j];
        digest = rotate_left32(digest, 3) ^ point.index ^ point.dwell_seconds;
        j += 1;
    }
    assert(ws.take(j as int) =~= ws);
    digest
}

} // verus!
