//! Putting what a server answered with into a text: the edits a rename hands back, as ranges
//! of the text they were worked out against.
//!
//! An edit names two places by line and column, which only mean anything against the text the
//! server was looking at. A caller holding a different text - a buffer typed into since, a file
//! somebody else wrote - would have the edit land on whatever sits at those numbers now, so
//! every place is checked against the text it is being put into, and an edit that does not fit
//! it is refused rather than moved somewhere it might.

use std::ops::Range;

use vstd::prelude::*;
use vstd::string::*;
use vstd::utf8::*;

use crate::error::{Fault, LspError};
use crate::lines;
use crate::order;
use crate::order::Ranked;
use crate::payload::{LspPosition, LspTextEdit, TextEditModel};
use crate::protocol::wire;
use crate::text;

verus! {

broadcast use vstd::string::group_string_axioms;

// ---------------------------------------------------------------------------------------------
// Places in a text
// ---------------------------------------------------------------------------------------------

/// How far into a text a place is, or why it is no place in it.
pub open spec fn place_in(bytes: Seq<u8>, at: LspPosition) -> Result<int, Fault> {
    match lines::line_start(bytes, at.line as nat) {
        None => Err(Fault::LinePastText { line: at.line }),
        Some(start) => {
            let offset = start + at.column;
            if offset > lines::line_end(bytes, start) || !is_char_boundary(bytes, offset) {
                Err(Fault::NotAPlace { line: at.line, column: at.column })
            } else {
                Ok(offset)
            }
        },
    }
}

/// How far into `text` a place is, in bytes.
///
/// Refused when the place is not in the text at all: a line past the last one, a column past
/// the end of its line, or a column in the middle of a character. Each of those is an edit
/// worked out against another text, which is the one mistake this exists to catch.
pub fn offset_of(text: &str, at: &LspPosition) -> (offset: Result<usize, LspError>)
    ensures
        match offset {
            Ok(offset) => place_in(text.spec_bytes(), *at) == Ok::<int, Fault>(offset as int)
                && offset <= text.spec_bytes().len(),
            Err(error) => place_in(text.spec_bytes(), *at) == Err::<int, Fault>(error@),
        },
{
    proof {
        text::lemma_text_is_its_bytes(text);
    }
    let line_start: usize = match lines::start_of(text, at.line) {
        Some(start) => start,
        None => {
            return Err(LspError::LinePastText { line: at.line });
        },
    };
    proof {
        lines::lemma_line_is_a_stretch(text.spec_bytes(), at.line as nat);
    }
    let line_end: usize = lines::end_of(text, line_start);
    if at.column > line_end - line_start || !text.is_char_boundary(line_start + at.column) {
        return Err(LspError::NotAPlace { line: at.line, column: at.column });
    }
    Ok(line_start + at.column)
}

// ---------------------------------------------------------------------------------------------
// Edits as ranges
// ---------------------------------------------------------------------------------------------

/// A stretch of a text, in bytes, and what goes in its place.
pub struct Span {
    /// Where it starts.
    pub start: int,
    /// Where it ends.
    pub end: int,
    /// What goes in its place.
    pub new_text: Seq<char>,
}

impl Ranked for (Range<usize>, String) {
    type Model = Span;

    open spec fn model(&self) -> Span {
        Span { start: self.0.start as int, end: self.0.end as int, new_text: self.1@ }
    }

    /// Ranges belong in the order they start in, and those that start together in the order
    /// they end in.
    open spec fn behind(left: Span, right: Span) -> bool {
        left.start > right.start || (left.start == right.start && left.end > right.end)
    }

    proof fn lemma_ranks(first: Span, second: Span, third: Span) {
    }

    fn is_behind(&self, other: &Self) -> (behind: bool) {
        self.0.start > other.0.start || (self.0.start == other.0.start && self.0.end
            > other.0.end)
    }
}

/// The stretch one edit replaces, or why there is no such stretch.
pub open spec fn span_of(bytes: Seq<u8>, edit: TextEditModel) -> Result<Span, Fault> {
    match (place_in(bytes, edit.start), place_in(bytes, edit.end)) {
        (Err(fault), _) => Err(fault),
        (Ok(_), Err(fault)) => Err(fault),
        (Ok(start), Ok(end)) => if end < start {
            Err(Fault::EditEndsBeforeItStarts)
        } else {
            Ok(Span { start, end, new_text: edit.new_text })
        },
    }
}

/// The stretches several edits replace, in the order of the edits, or what is wrong with the
/// first of them there is something wrong with.
pub open spec fn spans_of(bytes: Seq<u8>, edits: Seq<TextEditModel>) -> Result<Seq<Span>, Fault>
    decreases edits.len(),
{
    if edits.len() == 0 {
        Ok(Seq::empty())
    } else {
        match (spans_of(bytes, edits.drop_last()), span_of(bytes, edits.last())) {
            (Err(fault), _) => Err(fault),
            (Ok(_), Err(fault)) => Err(fault),
            (Ok(spans), Ok(span)) => Ok(spans.push(span)),
        }
    }
}

/// Whether one of several stretches runs on into the next.
pub open spec fn runs_on(spans: Seq<Span>, at: int) -> bool {
    0 <= at && at + 1 < spans.len() && spans[at].end > spans[at + 1].start
}

/// The stretches several edits replace, in the order they sit in the text. Refused whole where
/// one does not fit the text or two overlap.
pub open spec fn ordered_spans(bytes: Seq<u8>, edits: Seq<TextEditModel>) -> Result<
    Seq<Span>,
    Fault,
> {
    match spans_of(bytes, edits) {
        Err(fault) => Err(fault),
        Ok(spans) => {
            let ordered = order::ranked::<(Range<usize>, String)>(spans);
            if exists|at: int| #[trigger] runs_on(ordered, at) {
                Err(Fault::EditsOverlap)
            } else {
                Ok(ordered)
            }
        },
    }
}

/// What one edit that does not fit says of all of them.
proof fn lemma_first_misfit(bytes: Seq<u8>, edits: Seq<TextEditModel>, shown: int, fault: Fault)
    requires
        0 <= shown < edits.len(),
        spans_of(bytes, edits.take(shown)) is Ok,
        span_of(bytes, edits[shown]) == Err::<Span, Fault>(fault),
    ensures
        spans_of(bytes, edits) == Err::<Seq<Span>, Fault>(fault),
    decreases edits.len(),
{
    if shown + 1 == edits.len() {
        assert(edits.drop_last() =~= edits.take(shown));
    } else {
        assert(edits.drop_last().take(shown) =~= edits.take(shown));
        lemma_first_misfit(bytes, edits.drop_last(), shown, fault);
    }
}

/// The edits as byte ranges of `text` and what goes in each, in the order they sit in it.
///
/// Refused whole when any one of them does not fit the text, or when two of them overlap: the
/// protocol says a server's edits never do, and two that did would have no order to be put in
/// that leaves both of them meaning what they meant.
pub fn byte_ranges(text: &str, edits: &[LspTextEdit]) -> (ranges: Result<
    Vec<(Range<usize>, String)>,
    LspError,
>)
    ensures
        match ranges {
            Ok(ranges) => ordered_spans(text.spec_bytes(), wire::views(edits@)) == Ok::<
                Seq<Span>,
                Fault,
            >(order::models(ranges@)),
            Err(error) => ordered_spans(text.spec_bytes(), wire::views(edits@)) == Err::<
                Seq<Span>,
                Fault,
            >(error@),
        },
{
    let ghost bytes = text.spec_bytes();
    let ghost all = wire::views(edits@);
    let mut ranges: Vec<(Range<usize>, String)> = Vec::new();
    let mut taken: usize = 0;
    assert(all.take(0).len() == 0);
    assert(order::models(ranges@) =~= Seq::<Span>::empty());
    while taken < edits.len()
        invariant
            taken <= edits@.len(),
            bytes == text.spec_bytes(),
            all == wire::views(edits@),
            spans_of(bytes, all.take(taken as int)) == Ok::<Seq<Span>, Fault>(
                order::models(ranges@),
            ),
        decreases edits@.len() - taken,
    {
        let edit = &edits[taken];
        let ghost before = order::models(ranges@);
        let start: usize = match offset_of(text, &edit.start) {
            Ok(start) => start,
            Err(error) => {
                proof {
                    lemma_first_misfit(bytes, all, taken as int, error@);
                }
                return Err(error);
            },
        };
        let end: usize = match offset_of(text, &edit.end) {
            Ok(end) => end,
            Err(error) => {
                proof {
                    lemma_first_misfit(bytes, all, taken as int, error@);
                }
                return Err(error);
            },
        };
        if end < start {
            proof {
                lemma_first_misfit(
                    bytes,
                    all,
                    taken as int,
                    Fault::EditEndsBeforeItStarts,
                );
            }
            return Err(LspError::EditEndsBeforeItStarts);
        }
        ranges.push((start..end, edit.new_text.clone()));
        proof {
            let shown = all.take(taken + 1);
            assert(shown.drop_last() =~= all.take(taken as int));
            assert(order::models(ranges@) =~= before.push(
                Span { start: start as int, end: end as int, new_text: edit.new_text@ },
            ));
        }
        taken += 1;
    }
    assert(all.take(all.len() as int) =~= all);
    let ranges = order::sort(ranges);
    let ghost ordered = order::models(ranges@);
    let mut at: usize = 1;
    while at < ranges.len()
        invariant
            1 <= at,
            ordered == order::models(ranges@),
            all == wire::views(edits@),
            spans_of(bytes, all) is Ok,
            ordered == order::ranked::<(Range<usize>, String)>(spans_of(bytes, all)->Ok_0),
            bytes == text.spec_bytes(),
            at <= ranges@.len() || ranges@.len() == 0,
            forall|i: int| i + 1 < at ==> !#[trigger] runs_on(ordered, i),
        decreases ranges@.len() - at,
    {
        if ranges[at - 1].0.end > ranges[at].0.start {
            assert(runs_on(ordered, at - 1));
            return Err(LspError::EditsOverlap);
        }
        at += 1;
    }
    Ok(ranges)
}

// ---------------------------------------------------------------------------------------------
// Edits in the order they sit in a text
// ---------------------------------------------------------------------------------------------

/// Whether a place is ahead of another, or the same one.
pub open spec fn not_after(one: LspPosition, other: LspPosition) -> bool {
    one.line < other.line || (one.line == other.line && one.column <= other.column)
}

/// An edit among the others to its text.
pub struct Sitting(pub LspTextEdit);

impl Ranked for Sitting {
    type Model = TextEditModel;

    open spec fn model(&self) -> TextEditModel {
        self.0@
    }

    /// Edits belong in the order they start in, and those that start together in the order they
    /// end in.
    open spec fn behind(left: TextEditModel, right: TextEditModel) -> bool {
        !not_after(left.start, right.start) || (not_after(right.start, left.start) && !not_after(
            left.end,
            right.end,
        ))
    }

    proof fn lemma_ranks(first: TextEditModel, second: TextEditModel, third: TextEditModel) {
    }

    fn is_behind(&self, other: &Self) -> (behind: bool) {
        let one = &self.0;
        let other = &other.0;
        is_past(&one.start, &other.start) || (!is_past(&other.start, &one.start) && is_past(
            &one.end,
            &other.end,
        ))
    }
}

/// Whether a place is behind another - see [`not_after`].
fn is_past(one: &LspPosition, other: &LspPosition) -> (past: bool)
    ensures
        past == !not_after(*one, *other),
{
    one.line > other.line || (one.line == other.line && one.column > other.column)
}

/// Several edits in the order they sit in a text, under the conditions they go into it: refused
/// whole where one does not fit the text or two overlap.
pub open spec fn sitting(bytes: Seq<u8>, edits: Seq<TextEditModel>) -> Result<
    Seq<TextEditModel>,
    Fault,
> {
    match ordered_spans(bytes, edits) {
        Err(fault) => Err(fault),
        Ok(_) => Ok(order::ranked::<Sitting>(edits)),
    }
}

/// Whether edits sit one behind another, none of them ending before it starts and none of them
/// running on into the next.
pub open spec fn never_overlap(edits: Seq<TextEditModel>) -> bool {
    &&& forall|i: int|
        0 <= i < edits.len() ==> not_after((#[trigger] edits[i]).start, edits[i].end)
    &&& forall|i: int, j: int|
        0 <= i < j < edits.len() ==> not_after(
            (#[trigger] edits[i]).end,
            (#[trigger] edits[j]).start,
        )
}

/// The edits in the order they sit in `text`, refused whole for whatever [`byte_ranges`] refuses
/// them for.
pub fn in_place(text: &str, edits: Vec<LspTextEdit>) -> (placed: Result<
    Vec<LspTextEdit>,
    LspError,
>)
    ensures
        match placed {
            Ok(placed) => sitting(text.spec_bytes(), wire::views(edits@)) == Ok::<
                Seq<TextEditModel>,
                Fault,
            >(wire::views(placed@)),
            Err(error) => sitting(text.spec_bytes(), wire::views(edits@)) == Err::<
                Seq<TextEditModel>,
                Fault,
            >(error@),
        },
{
    if let Err(error) = byte_ranges(text, edits.as_slice()) {
        return Err(error);
    }
    let ghost all = wire::views(edits@);
    let mut seated: Vec<Sitting> = Vec::new();
    for edit in it: edits
        invariant
            wire::views(it.seq()) == all,
            order::models(seated@) =~= all.take(it.index()),
    {
        let ghost before = order::models(seated@);
        assert(all[it.index()] == edit@);
        seated.push(Sitting(edit));
        assert(order::models(seated@) =~= before.push(edit@));
    }
    assert(order::models(seated@) =~= all);
    let seated = order::sort(seated);
    let ghost ordered = order::models(seated@);
    let mut placed: Vec<LspTextEdit> = Vec::new();
    for edit in it: seated
        invariant
            order::models(it.seq()) == ordered,
            wire::views(placed@) =~= ordered.take(it.index()),
    {
        let ghost before = wire::views(placed@);
        assert(ordered[it.index()] == edit.0@);
        placed.push(edit.0);
        assert(wire::views(placed@) =~= before.push(edit.0@));
    }
    assert(wire::views(placed@) =~= ordered);
    Ok(placed)
}

// ---------------------------------------------------------------------------------------------
// Edits put in
// ---------------------------------------------------------------------------------------------

/// The rest of a text, from `from` on, with what goes in each stretch put in its place.
pub open spec fn put_in(bytes: Seq<u8>, spans: Seq<Span>, from: int) -> Seq<u8>
    decreases spans.len(),
{
    if spans.len() == 0 {
        bytes.subrange(from, bytes.len() as int)
    } else {
        bytes.subrange(from, spans[0].start) + encode_utf8(spans[0].new_text) + put_in(
            bytes,
            spans.drop_first(),
            spans[0].end,
        )
    }
}

/// Every stretch an edit replaces starts and ends on a boundary of the text, in that order.
pub open spec fn fits(bytes: Seq<u8>, span: Span) -> bool {
    &&& 0 <= span.start <= span.end <= bytes.len()
    &&& is_char_boundary(bytes, span.start)
    &&& is_char_boundary(bytes, span.end)
}

proof fn lemma_spans_fit(bytes: Seq<u8>, edits: Seq<TextEditModel>)
    requires
        valid_utf8(bytes),
        spans_of(bytes, edits) is Ok,
    ensures
        forall|i: int|
            0 <= i < spans_of(bytes, edits)->Ok_0.len() ==> fits(
                bytes,
                #[trigger] spans_of(bytes, edits)->Ok_0[i],
            ),
    decreases edits.len(),
{
    if edits.len() > 0 {
        lemma_spans_fit(bytes, edits.drop_last());
        let edit = edits.last();
        lines::lemma_line_is_a_stretch(bytes, edit.start.line as nat);
        lines::lemma_line_is_a_stretch(bytes, edit.end.line as nat);
    }
}

/// `text` with every edit put in.
pub fn apply(text: &str, edits: &[LspTextEdit]) -> (edited: Result<String, LspError>)
    ensures
        match edited {
            Ok(edited) => {
                &&& ordered_spans(text.spec_bytes(), wire::views(edits@)) matches Ok(spans)
                &&& encode_utf8(edited@) == put_in(text.spec_bytes(), spans, 0)
            },
            Err(error) => ordered_spans(text.spec_bytes(), wire::views(edits@)) == Err::<
                Seq<Span>,
                Fault,
            >(error@),
        },
{
    let ranges = match byte_ranges(text, edits) {
        Ok(ranges) => ranges,
        Err(error) => {
            return Err(error);
        },
    };
    let ghost bytes = text.spec_bytes();
    let ghost spans = order::models(ranges@);
    proof {
        text::lemma_text_is_its_bytes(text);
        lemma_spans_fit(bytes, wire::views(edits@));
        order::law_order_keeps_everything::<(Range<usize>, String)>(
            spans_of(bytes, wire::views(edits@))->Ok_0,
        );
        is_char_boundary_start_end_of_seq(bytes);
        assert(spans.skip(0) =~= spans);
    }
    let length: usize = text.as_bytes().len();
    let mut edited = String::new();
    let mut copied_to: usize = 0;
    let mut at: usize = 0;
    assert(encode_utf8(edited@) + put_in(bytes, spans, 0) =~= put_in(bytes, spans, 0));
    while at < ranges.len()
        invariant
            bytes == text.spec_bytes(),
            valid_utf8(bytes),
            spans == order::models(ranges@),
            at <= ranges@.len(),
            copied_to <= bytes.len(),
            length == bytes.len(),
            is_char_boundary(bytes, copied_to as int),
            forall|i: int| 0 <= i < spans.len() ==> fits(bytes, #[trigger] spans[i]),
            forall|i: int| !#[trigger] runs_on(spans, i),
            at > 0 ==> copied_to == spans[at - 1].end,
            at == 0 ==> copied_to == 0,
            encode_utf8(edited@) + put_in(bytes, spans.skip(at as int), copied_to as int)
                == put_in(bytes, spans, 0),
        decreases ranges@.len() - at,
    {
        proof {
            let here = spans[at as int];
            assert(fits(bytes, here));
            if at > 0 {
                assert(!runs_on(spans, at - 1));
            }
        }
        let range = &ranges[at];
        let ghost before = encode_utf8(edited@);
        let ghost rest = spans.skip(at as int);
        let kept = text::slice(text, copied_to, range.0.start);
        proof {
            text::lemma_bytes_of_both(edited@, kept@);
            text::lemma_bytes_of_both(edited@ + kept@, range.1@);
        }
        edited.append(kept);
        edited.append(range.1.as_str());
        copied_to = range.0.end;
        at += 1;
        proof {
            assert(rest[0] == spans[at - 1]);
            assert(rest.drop_first() =~= spans.skip(at as int));
            assert(encode_utf8(edited@) + put_in(
                bytes,
                spans.skip(at as int),
                copied_to as int,
            ) =~= before + put_in(bytes, rest, spans_copied(spans, at - 1)));
        }
    }
    let kept = text::slice(text, copied_to, length);
    proof {
        text::lemma_bytes_of_both(edited@, kept@);
    }
    edited.append(kept);
    Ok(edited)
}

/// How far a text has been copied once this many stretches of it have been put in.
spec fn spans_copied(spans: Seq<Span>, put: int) -> int {
    if put == 0 {
        0
    } else {
        spans[put - 1].end
    }
}

// ---------------------------------------------------------------------------------------------
// What putting edits in promises
// ---------------------------------------------------------------------------------------------

/// No edits leave a text as it is.
pub proof fn law_no_edits_change_nothing(bytes: Seq<u8>)
    ensures
        ordered_spans(bytes, Seq::empty()) == Ok::<Seq<Span>, Fault>(Seq::empty()),
        put_in(bytes, Seq::empty(), 0) == bytes,
{
    assert(bytes.subrange(0, bytes.len() as int) =~= bytes);
    assert(order::ranked::<(Range<usize>, String)>(Seq::<Span>::empty()) =~= Seq::empty());
}

/// Edits that are put in are stretches of the text, each ending before the next starts.
pub proof fn law_edits_put_in_never_overlap(bytes: Seq<u8>, edits: Seq<TextEditModel>)
    requires
        valid_utf8(bytes),
    ensures
        ordered_spans(bytes, edits) matches Ok(spans) ==> {
            &&& spans.len() == edits.len()
            &&& forall|i: int| 0 <= i < spans.len() ==> fits(bytes, #[trigger] spans[i])
            &&& forall|i: int, j: int|
                0 <= i < j < spans.len() ==> (#[trigger] spans[i]).end <= (
                #[trigger] spans[j]).start
        },
{
    if let Ok(spans) = ordered_spans(bytes, edits) {
        let unordered = spans_of(bytes, edits)->Ok_0;
        lemma_spans_are_the_edits(bytes, edits);
        lemma_spans_fit(bytes, edits);
        order::law_order_keeps_everything::<(Range<usize>, String)>(unordered);
        assert forall|i: int, j: int| 0 <= i < j < spans.len() implies (
        #[trigger] spans[i]).end <= (#[trigger] spans[j]).start by {
            lemma_each_before_the_next(bytes, spans, i, j);
        }
    }
}

proof fn lemma_each_before_the_next(bytes: Seq<u8>, spans: Seq<Span>, i: int, j: int)
    requires
        0 <= i < j < spans.len(),
        forall|at: int| 0 <= at < spans.len() ==> fits(bytes, #[trigger] spans[at]),
        forall|at: int| !#[trigger] runs_on(spans, at),
    ensures
        spans[i].end <= spans[j].start,
    decreases j - i,
{
    assert(!runs_on(spans, j - 1));
    if i + 1 < j {
        lemma_each_before_the_next(bytes, spans, i, j - 1);
        assert(fits(bytes, spans[j - 1]));
    }
}

proof fn lemma_spans_are_the_edits(bytes: Seq<u8>, edits: Seq<TextEditModel>)
    ensures
        spans_of(bytes, edits) is Ok <==> (forall|i: int|
            0 <= i < edits.len() ==> span_of(bytes, #[trigger] edits[i]) is Ok),
        spans_of(bytes, edits) matches Ok(spans) ==> spans.len() == edits.len() && forall|i: int|
            0 <= i < edits.len() ==> span_of(bytes, #[trigger] edits[i]) == Ok::<Span, Fault>(
                spans[i],
            ),
    decreases edits.len(),
{
    if edits.len() > 0 {
        let shorter = edits.drop_last();
        lemma_spans_are_the_edits(bytes, shorter);
        assert(forall|i: int| 0 <= i < shorter.len() ==> shorter[i] == edits[i]);
        if spans_of(bytes, edits) is Ok {
            assert forall|i: int| 0 <= i < edits.len() implies span_of(bytes, #[trigger] edits[i])
                == Ok::<Span, Fault>(spans_of(bytes, edits)->Ok_0[i]) by {
                if i < shorter.len() {
                    assert(shorter[i] == edits[i]);
                }
            }
        } else if spans_of(bytes, shorter) is Err {
            let at = choose|i: int|
                0 <= i < shorter.len() && !(span_of(bytes, #[trigger] shorter[i]) is Ok);
            assert(edits[at] == shorter[at]);
        } else {
            assert(edits[edits.len() - 1] == edits.last());
        }
    }
}

/// Of two places in a text the one further on in it is the one a line or a column further on.
proof fn lemma_places_are_in_order(bytes: Seq<u8>, one: LspPosition, other: LspPosition)
    requires
        valid_utf8(bytes),
        place_in(bytes, one) is Ok,
        place_in(bytes, other) is Ok,
    ensures
        not_after(one, other) <==> place_in(bytes, one)->Ok_0 <= place_in(bytes, other)->Ok_0,
{
    if one.line < other.line {
        lines::lemma_lines_are_in_order(bytes, one.line as nat, other.line as nat);
    } else if other.line < one.line {
        lines::lemma_lines_are_in_order(bytes, other.line as nat, one.line as nat);
    }
}

/// Whether stretches are those of edits, one for one.
spec fn are_of(bytes: Seq<u8>, spans: Seq<Span>, edits: Seq<TextEditModel>) -> bool {
    &&& spans.len() == edits.len()
    &&& forall|i: int|
        0 <= i < edits.len() ==> span_of(bytes, #[trigger] edits[i]) == Ok::<Span, Fault>(spans[i])
}

/// An edit is placed among edits where its stretch is placed among theirs.
proof fn lemma_placed_alike(
    bytes: Seq<u8>,
    spans: Seq<Span>,
    edits: Seq<TextEditModel>,
    span: Span,
    edit: TextEditModel,
)
    requires
        valid_utf8(bytes),
        are_of(bytes, spans, edits),
        span_of(bytes, edit) == Ok::<Span, Fault>(span),
    ensures
        are_of(
            bytes,
            order::placed::<(Range<usize>, String)>(spans, span),
            order::placed::<Sitting>(edits, edit),
        ),
    decreases edits.len(),
{
    if edits.len() > 0 {
        let last = edits.last();
        assert(span_of(bytes, edits[edits.len() - 1]) == Ok::<Span, Fault>(spans.last()));
        lemma_places_are_in_order(bytes, last.start, edit.start);
        lemma_places_are_in_order(bytes, edit.start, last.start);
        lemma_places_are_in_order(bytes, last.end, edit.end);
        if Sitting::behind(last, edit) {
            let fewer = edits.drop_last();
            assert(forall|i: int| 0 <= i < fewer.len() ==> fewer[i] == edits[i]);
            assert(are_of(bytes, spans.drop_last(), fewer));
            lemma_placed_alike(bytes, spans.drop_last(), fewer, span, edit);
        }
    }
}

/// Edits are put in the order their stretches are put in.
proof fn lemma_ranked_alike(bytes: Seq<u8>, spans: Seq<Span>, edits: Seq<TextEditModel>)
    requires
        valid_utf8(bytes),
        are_of(bytes, spans, edits),
    ensures
        are_of(
            bytes,
            order::ranked::<(Range<usize>, String)>(spans),
            order::ranked::<Sitting>(edits),
        ),
    decreases edits.len(),
{
    if edits.len() > 0 {
        let fewer = edits.drop_last();
        assert(forall|i: int| 0 <= i < fewer.len() ==> fewer[i] == edits[i]);
        assert(are_of(bytes, spans.drop_last(), fewer));
        lemma_ranked_alike(bytes, spans.drop_last(), fewer);
        assert(span_of(bytes, edits[edits.len() - 1]) == Ok::<Span, Fault>(spans.last()));
        lemma_placed_alike(
            bytes,
            order::ranked::<(Range<usize>, String)>(spans.drop_last()),
            order::ranked::<Sitting>(fewer),
            spans.last(),
            edits.last(),
        );
    }
}

/// Edits in the order they sit in a text are the edits that were handed in, each of them a stretch
/// of the text, and never overlap.
pub proof fn law_edits_that_sit_in_a_text_never_overlap(bytes: Seq<u8>, edits: Seq<TextEditModel>)
    requires
        valid_utf8(bytes),
    ensures
        sitting(bytes, edits) matches Ok(placed) ==> {
            &&& never_overlap(placed)
            &&& placed.to_multiset() == edits.to_multiset()
            &&& forall|i: int|
                0 <= i < placed.len() ==> span_of(bytes, #[trigger] placed[i]) is Ok
        },
{
    if let Ok(placed) = sitting(bytes, edits) {
        let unordered = spans_of(bytes, edits)->Ok_0;
        let spans = ordered_spans(bytes, edits)->Ok_0;
        lemma_spans_are_the_edits(bytes, edits);
        law_edits_put_in_never_overlap(bytes, edits);
        lemma_ranked_alike(bytes, unordered, edits);
        order::law_order_keeps_everything::<Sitting>(edits);
        assert forall|i: int| 0 <= i < placed.len() implies not_after(
            (#[trigger] placed[i]).start,
            placed[i].end,
        ) by {
            assert(span_of(bytes, placed[i]) == Ok::<Span, Fault>(spans[i]));
            lemma_places_are_in_order(bytes, placed[i].start, placed[i].end);
        }
        assert forall|i: int, j: int| 0 <= i < j < placed.len() implies not_after(
            (#[trigger] placed[i]).end,
            (#[trigger] placed[j]).start,
        ) by {
            assert(span_of(bytes, placed[i]) == Ok::<Span, Fault>(spans[i]));
            assert(span_of(bytes, placed[j]) == Ok::<Span, Fault>(spans[j]));
            lemma_places_are_in_order(bytes, placed[i].end, placed[j].start);
        }
    }
}

/// Edits go in together or not at all: one that does not fit the text refuses the lot.
pub proof fn law_one_misfit_refuses_the_lot(bytes: Seq<u8>, edits: Seq<TextEditModel>, at: int)
    requires
        0 <= at < edits.len(),
        span_of(bytes, edits[at]) is Err,
    ensures
        ordered_spans(bytes, edits) is Err,
{
    lemma_spans_are_the_edits(bytes, edits);
}

/// Edits go in together or not at all: two over the same text refuse the lot.
pub proof fn law_two_over_the_same_text_refuse_the_lot(
    bytes: Seq<u8>,
    edits: Seq<TextEditModel>,
    i: int,
    j: int,
)
    requires
        valid_utf8(bytes),
        0 <= i < j < edits.len(),
        span_of(bytes, edits[i]) matches Ok(one) && span_of(bytes, edits[j]) matches Ok(other)
            && one.start < other.end && other.start < one.end,
    ensures
        ordered_spans(bytes, edits) is Err,
{
    broadcast use vstd::seq_lib::group_to_multiset_ensures;

    if let Ok(spans) = ordered_spans(bytes, edits) {
        let unordered = spans_of(bytes, edits)->Ok_0;
        lemma_spans_are_the_edits(bytes, edits);
        law_edits_put_in_never_overlap(bytes, edits);
        order::law_order_keeps_everything::<(Range<usize>, String)>(unordered);
        let one = unordered[i];
        let other = unordered[j];
        assert(span_of(bytes, edits[i]) == Ok::<Span, Fault>(one));
        assert(span_of(bytes, edits[j]) == Ok::<Span, Fault>(other));
        assert(unordered.contains(one));
        assert(unordered.contains(other));
        assert(spans.to_multiset().count(one) > 0);
        assert(spans.to_multiset().count(other) > 0);
        let first = choose|at: int| 0 <= at < spans.len() && spans[at] == one;
        let second = choose|at: int| 0 <= at < spans.len() && spans[at] == other;
        if first == second {
            lemma_twice_in_one_is_twice_in_both(unordered, spans, i, j);
        }
    }
}

/// What is in one list twice is in any list of the same things twice.
proof fn lemma_twice_in_one_is_twice_in_both(one: Seq<Span>, other: Seq<Span>, i: int, j: int)
    requires
        0 <= i < j < one.len(),
        one[i] == one[j],
        one.to_multiset() == other.to_multiset(),
    ensures
        exists|p: int, q: int|
            0 <= p < q < other.len() && #[trigger] other[p] == one[i] && #[trigger] other[q]
                == one[i],
{
    if forall|p: int, q: int|
        0 <= p < q < other.len() ==> !(#[trigger] other[p] == one[i] && #[trigger] other[q]
            == one[i]) {
        lemma_count_at_most_once(other, one[i]);
        lemma_count_twice(one, i, j);
    }
}

proof fn lemma_count_at_most_once(list: Seq<Span>, thing: Span)
    requires
        forall|p: int, q: int|
            0 <= p < q < list.len() ==> !(#[trigger] list[p] == thing && #[trigger] list[q]
                == thing),
    ensures
        list.to_multiset().count(thing) <= 1,
    decreases list.len(),
{
    broadcast use vstd::seq_lib::group_to_multiset_ensures;

    if list.len() > 0 {
        let shorter = list.drop_last();
        assert(shorter.push(list.last()) =~= list);
        lemma_count_at_most_once(shorter, thing);
        if list.last() == thing {
            if shorter.contains(thing) {
                let p = choose|p: int| 0 <= p < shorter.len() && shorter[p] == thing;
                assert(list[p] == thing && list[list.len() - 1] == thing);
            }
            assert(shorter.to_multiset().count(thing) == 0);
        }
    }
}

proof fn lemma_count_twice(list: Seq<Span>, i: int, j: int)
    requires
        0 <= i < j < list.len(),
        list[i] == list[j],
    ensures
        list.to_multiset().count(list[i]) >= 2,
    decreases list.len(),
{
    broadcast use vstd::seq_lib::group_to_multiset_ensures;

    let shorter = list.drop_last();
    assert(shorter.push(list.last()) =~= list);
    if j < shorter.len() {
        lemma_count_twice(shorter, i, j);
    } else {
        assert(shorter[i] == list[i]);
        assert(shorter.contains(list[i]));
        assert(shorter.to_multiset().count(list[i]) > 0);
    }
}

/// Whether no two stretches are the same stretch.
pub open spec fn apart(spans: Seq<Span>) -> bool {
    forall|i: int, j: int|
        0 <= i < j < spans.len() ==> ((#[trigger] spans[i]).start != (#[trigger] spans[j]).start
            || spans[i].end != spans[j].end)
}

/// The order edits are handed in makes no difference to what they come to, as long as no two of
/// them are to the very same stretch: those that all fit the text go in the same way or are refused
/// the same way, and where one does not fit it they are refused in either order.
pub proof fn law_edits_go_in_whatever_order_they_come(
    bytes: Seq<u8>,
    edits: Seq<TextEditModel>,
    shuffled: Seq<TextEditModel>,
)
    requires
        spans_of(bytes, edits) matches Ok(spans) ==> apart(spans),
        spans_of(bytes, shuffled) matches Ok(spans) ==> apart(spans),
        forall|edit: TextEditModel| edits.contains(edit) <==> shuffled.contains(edit),
    ensures
        match spans_of(bytes, edits) {
            Ok(_) => ordered_spans(bytes, shuffled) == ordered_spans(bytes, edits),
            Err(_) => ordered_spans(bytes, shuffled) is Err && ordered_spans(bytes, edits) is Err,
        },
{
    lemma_spans_are_the_edits(bytes, edits);
    lemma_spans_are_the_edits(bytes, shuffled);
    if spans_of(bytes, edits) is Ok {
        lemma_shuffled(bytes, edits, shuffled);
    } else {
        let at = choose|at: int|
            0 <= at < edits.len() && !(span_of(bytes, #[trigger] edits[at]) is Ok);
        assert(edits.contains(edits[at]));
        let there = choose|there: int| 0 <= there < shuffled.len() && shuffled[there] == edits[at];
        assert(!(span_of(bytes, shuffled[there]) is Ok));
    }
}

proof fn lemma_shuffled(
    bytes: Seq<u8>,
    edits: Seq<TextEditModel>,
    shuffled: Seq<TextEditModel>,
)
    requires
        spans_of(bytes, edits) matches Ok(spans) && apart(spans),
        spans_of(bytes, shuffled) matches Ok(spans) ==> apart(spans),
        forall|edit: TextEditModel| edits.contains(edit) <==> shuffled.contains(edit),
    ensures
        ordered_spans(bytes, shuffled) == ordered_spans(bytes, edits),
{
    lemma_spans_are_the_edits(bytes, edits);
    lemma_spans_are_the_edits(bytes, shuffled);
    assert forall|i: int| 0 <= i < shuffled.len() implies span_of(
        bytes,
        #[trigger] shuffled[i],
    ) is Ok by {
        assert(shuffled.contains(shuffled[i]));
        let at = choose|at: int| 0 <= at < edits.len() && edits[at] == shuffled[i];
        assert(span_of(bytes, edits[at]) is Ok);
    }
    let one = spans_of(bytes, edits)->Ok_0;
    let other = spans_of(bytes, shuffled)->Ok_0;
    order::law_things_apart_are_put_strictly_in_order::<(Range<usize>, String)>(one);
    order::law_things_apart_are_put_strictly_in_order::<(Range<usize>, String)>(other);
    let one_ordered = order::ranked::<(Range<usize>, String)>(one);
    let other_ordered = order::ranked::<(Range<usize>, String)>(other);
    assert forall|span: Span| one_ordered.contains(span) <==> other_ordered.contains(span) by {
        if one.contains(span) {
            let i = choose|i: int| 0 <= i < one.len() && one[i] == span;
            assert(span_of(bytes, edits[i]) == Ok::<Span, Fault>(span));
            assert(edits.contains(edits[i]));
            let j = choose|j: int| 0 <= j < shuffled.len() && shuffled[j] == edits[i];
            assert(span_of(bytes, shuffled[j]) == Ok::<Span, Fault>(other[j]));
            assert(other.contains(span));
        }
        if other.contains(span) {
            let j = choose|j: int| 0 <= j < other.len() && other[j] == span;
            assert(span_of(bytes, shuffled[j]) == Ok::<Span, Fault>(span));
            assert(shuffled.contains(shuffled[j]));
            let i = choose|i: int| 0 <= i < edits.len() && edits[i] == shuffled[j];
            assert(span_of(bytes, edits[i]) == Ok::<Span, Fault>(one[i]));
            assert(one.contains(span));
        }
    }
    order::law_there_is_one_order::<(Range<usize>, String)>(one_ordered, other_ordered);
}

// ---------------------------------------------------------------------------------------------
// What is in a text once edits are put in
// ---------------------------------------------------------------------------------------------

/// A place is in a text exactly where it is that many bytes behind the start of a line - the start
/// of the text, or a newline - that has as many newlines ahead of it as the number of the line, with
/// no newline in between and on a boundary. A line past the number of newlines is refused for the
/// line, and everything else for the place.
pub proof fn law_a_place_is_a_column_of_its_line(bytes: Seq<u8>, at: LspPosition, offset: int)
    ensures
        place_in(bytes, at) == Ok::<int, Fault>(offset) <==> {
            &&& at.column <= offset <= bytes.len()
            &&& is_char_boundary(bytes, offset)
            &&& offset == at.column || bytes[offset - at.column - 1] == 10
            &&& forall|i: int| offset - at.column <= i < offset ==> bytes[i] != 10
            &&& bytes.subrange(0, offset - at.column).filter(|b: u8| b == 10).len() == at.line
        },
        place_in(bytes, at) == Err::<int, Fault>(Fault::LinePastText { line: at.line }) <==> at.line
            > bytes.filter(|b: u8| b == 10).len(),
        place_in(bytes, at) matches Err(fault) ==> fault == (Fault::LinePastText { line: at.line })
            || fault == (Fault::NotAPlace { line: at.line, column: at.column }),
{
    lines::lemma_newlines_ahead_of_a_line(bytes, at.line as nat);
    if let Some(start) = lines::line_start(bytes, at.line as nat) {
        text::lemma_next_at(bytes, 10, start);
    }
    let start = offset - at.column;
    if 0 <= start && offset <= bytes.len() && (start == 0 || bytes[start - 1] == 10) && (forall|
        i: int,
    |
        start <= i < offset ==> bytes[i] != 10) && bytes.subrange(0, start).filter(
        |b: u8| b == 10,
    ).len() == at.line {
        lines::lemma_line_starts_here(bytes, start);
        text::lemma_next_at(bytes, 10, start);
    }
}

/// One edit puts its new text where its stretch was: what is ahead of the stretch stays, what is
/// behind it stays, and nothing of the stretch is left, whatever goes in.
pub proof fn law_one_edit_replaces_its_stretch(
    bytes: Seq<u8>,
    edit: TextEditModel,
    start: int,
    end: int,
)
    requires
        valid_utf8(bytes),
        place_in(bytes, edit.start) == Ok::<int, Fault>(start),
        place_in(bytes, edit.end) == Ok::<int, Fault>(end),
        start <= end,
    ensures
        ordered_spans(bytes, seq![edit]) matches Ok(spans) && put_in(bytes, spans, 0)
            == bytes.subrange(0, start) + encode_utf8(edit.new_text) + bytes.subrange(
            end,
            bytes.len() as int,
        ),
{
    let span = Span { start, end, new_text: edit.new_text };
    lemma_two_spans_of(bytes, edit, edit);
    assert(order::ranked::<(Range<usize>, String)>(seq![span]) =~= seq![span]) by {
        assert(seq![span].drop_last() =~= Seq::<Span>::empty());
        assert(order::ranked::<(Range<usize>, String)>(Seq::<Span>::empty()) =~= Seq::empty());
    }
    assert(seq![span].drop_first() =~= Seq::<Span>::empty());
    assert(put_in(bytes, seq![span], 0) =~= bytes.subrange(0, start) + encode_utf8(edit.new_text)
        + bytes.subrange(end, bytes.len() as int)) by {
        assert(seq![span][0] == span);
        assert(put_in(bytes, Seq::<Span>::empty(), end) == bytes.subrange(end, bytes.len() as int));
    }
    assert forall|at: int| !#[trigger] runs_on(seq![span], at) by {}
}

proof fn lemma_two_spans_of(bytes: Seq<u8>, one: TextEditModel, other: TextEditModel)
    ensures
        span_of(bytes, one) matches Ok(span) ==> {
            &&& spans_of(bytes, seq![one]) == Ok::<Seq<Span>, Fault>(seq![span])
            &&& span_of(bytes, other) matches Ok(next) ==> spans_of(bytes, seq![one, other])
                == Ok::<Seq<Span>, Fault>(seq![span, next])
        },
{
    assert(seq![one].drop_last() =~= Seq::<TextEditModel>::empty());
    assert(seq![one, other].drop_last() =~= seq![one]);
    assert(spans_of(bytes, Seq::<TextEditModel>::empty()) == Ok::<Seq<Span>, Fault>(Seq::empty()));
    assert(seq![one].last() == one);
    assert(seq![one, other].last() == other);
    if let Ok(span) = span_of(bytes, one) {
        assert(Seq::<Span>::empty().push(span) =~= seq![span]);
        if let Ok(next) = span_of(bytes, other) {
            assert(seq![span].push(next) =~= seq![span, next]);
        }
    }
}

/// Several edits to one place of a text that replace nothing of it go in one behind another, in the
/// order they come.
pub proof fn law_edits_at_one_place_go_in_as_they_come(
    bytes: Seq<u8>,
    one: TextEditModel,
    other: TextEditModel,
    at: int,
)
    requires
        valid_utf8(bytes),
        place_in(bytes, one.start) == Ok::<int, Fault>(at),
        place_in(bytes, one.end) == Ok::<int, Fault>(at),
        place_in(bytes, other.start) == Ok::<int, Fault>(at),
        place_in(bytes, other.end) == Ok::<int, Fault>(at),
    ensures
        ordered_spans(bytes, seq![one, other]) matches Ok(spans) && put_in(bytes, spans, 0)
            == bytes.subrange(0, at) + encode_utf8(one.new_text) + encode_utf8(other.new_text)
            + bytes.subrange(at, bytes.len() as int),
{
    let first = Span { start: at, end: at, new_text: one.new_text };
    let second = Span { start: at, end: at, new_text: other.new_text };
    lemma_two_spans_of(bytes, one, other);
    let spans = seq![first, second];
    order::law_things_in_order_are_left_as_they_are::<(Range<usize>, String)>(spans);
    assert forall|i: int| !#[trigger] runs_on(spans, i) by {}
    assert(spans.drop_first() =~= seq![second]);
    assert(seq![second].drop_first() =~= Seq::<Span>::empty());
    assert(seq![second][0] == second);
    assert(put_in(bytes, Seq::<Span>::empty(), at) == bytes.subrange(at, bytes.len() as int));
    assert(put_in(bytes, seq![second], at) =~= encode_utf8(other.new_text) + bytes.subrange(
        at,
        bytes.len() as int,
    ));
    assert(put_in(bytes, spans, 0) =~= bytes.subrange(0, at) + encode_utf8(one.new_text)
        + encode_utf8(other.new_text) + bytes.subrange(at, bytes.len() as int));
}

/// What a text is with the last of several stretches of it replaced.
proof fn lemma_last_put_in_first(bytes: Seq<u8>, spans: Seq<Span>, from: int)
    requires
        spans.len() > 0,
        0 <= from <= spans[0].start,
        forall|i: int|
            0 <= i < spans.len() ==> 0 <= (#[trigger] spans[i]).start <= spans[i].end
                <= bytes.len(),
        forall|i: int, j: int|
            0 <= i < j < spans.len() ==> (#[trigger] spans[i]).end <= (#[trigger] spans[j]).start,
    ensures
        put_in(bytes, spans, from) == put_in(
            bytes.subrange(0, spans.last().start) + encode_utf8(spans.last().new_text)
                + bytes.subrange(spans.last().end, bytes.len() as int),
            spans.drop_last(),
            from,
        ),
    decreases spans.len(),
{
    let last = spans.last();
    let replaced = bytes.subrange(0, last.start) + encode_utf8(last.new_text) + bytes.subrange(
        last.end,
        bytes.len() as int,
    );
    let rest = spans.drop_first();
    assert(spans[spans.len() - 1] == last);
    if spans.len() == 1 {
        assert(rest =~= Seq::<Span>::empty());
        assert(spans.drop_last() =~= Seq::<Span>::empty());
        assert(put_in(bytes, rest, last.end) == bytes.subrange(last.end, bytes.len() as int));
        assert(spans[0] == last);
        assert(put_in(bytes, spans, from) =~= replaced.subrange(from, replaced.len() as int));
    } else {
        assert(spans[0].end <= spans[1].start);
        assert(spans[0].end <= spans[spans.len() - 1].start);
        assert forall|i: int| 0 <= i < rest.len() implies 0 <= (#[trigger] rest[i]).start
            <= rest[i].end <= bytes.len() by {
            assert(rest[i] == spans[i + 1]);
        }
        assert forall|i: int, j: int| 0 <= i < j < rest.len() implies (#[trigger] rest[i]).end <= (
        #[trigger] rest[j]).start by {
            assert(rest[i] == spans[i + 1]);
            assert(rest[j] == spans[j + 1]);
        }
        lemma_last_put_in_first(bytes, rest, spans[0].end);
        assert(rest.last() == last);
        assert(rest.drop_last() =~= spans.drop_last().drop_first());
        assert(replaced.subrange(from, spans[0].start) =~= bytes.subrange(from, spans[0].start));
        assert(spans.drop_last()[0] == spans[0]);
    }
}

/// Putting several edits in is putting the last of them in and then the others into what that left:
/// each stretch is replaced by its new text, and nothing else is touched.
pub proof fn law_edits_go_in_one_by_one(bytes: Seq<u8>, edits: Seq<TextEditModel>)
    requires
        valid_utf8(bytes),
    ensures
        ordered_spans(bytes, edits) matches Ok(spans) ==> spans.len() > 0 ==> put_in(
            bytes,
            spans,
            0,
        ) == put_in(
            bytes.subrange(0, spans.last().start) + encode_utf8(spans.last().new_text)
                + bytes.subrange(spans.last().end, bytes.len() as int),
            spans.drop_last(),
            0,
        ),
{
    law_edits_put_in_never_overlap(bytes, edits);
    if let Ok(spans) = ordered_spans(bytes, edits) {
        if spans.len() > 0 {
            assert forall|i: int| 0 <= i < spans.len() implies 0 <= (#[trigger] spans[i]).start
                <= spans[i].end <= bytes.len() by {
                assert(fits(bytes, spans[i]));
            }
            lemma_last_put_in_first(bytes, spans, 0);
        }
    }
}

/// How much longer a text is once a stretch is replaced, from how much longer it was.
spec fn grown() -> spec_fn(int, Span) -> int {
    |longer: int, span: Span|
        longer + encode_utf8(span.new_text).len() - (span.end - span.start)
}

proof fn lemma_length_put_in(bytes: Seq<u8>, spans: Seq<Span>)
    requires
        forall|i: int|
            0 <= i < spans.len() ==> 0 <= (#[trigger] spans[i]).start <= spans[i].end
                <= bytes.len(),
        forall|i: int, j: int|
            0 <= i < j < spans.len() ==> (#[trigger] spans[i]).end <= (#[trigger] spans[j]).start,
    ensures
        put_in(bytes, spans, 0).len() == spans.fold_left(bytes.len() as int, grown()),
    decreases spans.len(),
{
    if spans.len() == 0 {
        assert(bytes.subrange(0, bytes.len() as int) =~= bytes);
    } else {
        let last = spans.last();
        let fewer = spans.drop_last();
        lemma_last_put_in_first(bytes, spans, 0);
        let replaced = bytes.subrange(0, last.start) + encode_utf8(last.new_text) + bytes.subrange(
            last.end,
            bytes.len() as int,
        );
        assert(spans[spans.len() - 1] == last);
        assert forall|i: int| 0 <= i < fewer.len() implies 0 <= (#[trigger] fewer[i]).start
            <= fewer[i].end <= replaced.len() by {
            assert(fewer[i] == spans[i]);
        }
        assert forall|i: int, j: int| 0 <= i < j < fewer.len() implies (#[trigger] fewer[i]).end
            <= (#[trigger] fewer[j]).start by {
            assert(fewer[i] == spans[i]);
            assert(fewer[j] == spans[j]);
        }
        lemma_length_put_in(replaced, fewer);
        lemma_grown_from(fewer, bytes.len() as int, replaced.len() as int);
    }
}

proof fn lemma_grown_from(spans: Seq<Span>, one: int, other: int)
    ensures
        spans.fold_left(one, grown()) - one == spans.fold_left(other, grown()) - other,
    decreases spans.len(),
{
    if spans.len() > 0 {
        lemma_grown_from(spans.drop_last(), one, other);
    }
}

proof fn lemma_grown_alike(bytes: Seq<u8>, spans: Seq<Span>, edits: Seq<TextEditModel>, from: int)
    requires
        are_of(bytes, spans, edits),
    ensures
        spans.fold_left(from, grown()) == edits.fold_left(
            from,
            |longer: int, edit: TextEditModel|
                longer + encode_utf8(edit.new_text).len() - (place_in(bytes, edit.end)->Ok_0
                    - place_in(bytes, edit.start)->Ok_0),
        ),
    decreases edits.len(),
{
    if edits.len() > 0 {
        let fewer = edits.drop_last();
        assert(forall|i: int| 0 <= i < fewer.len() ==> fewer[i] == edits[i]);
        assert(are_of(bytes, spans.drop_last(), fewer));
        lemma_grown_alike(bytes, spans.drop_last(), fewer, from);
        assert(span_of(bytes, edits[edits.len() - 1]) == Ok::<Span, Fault>(spans.last()));
    }
}

/// A text with edits put in is as long as it was, with the length of every new text added and the
/// length of every stretch replaced taken away.
pub proof fn law_every_stretch_is_gone_and_every_text_is_in(
    bytes: Seq<u8>,
    edits: Seq<TextEditModel>,
)
    requires
        valid_utf8(bytes),
    ensures
        ordered_spans(bytes, edits) matches Ok(spans) ==> put_in(bytes, spans, 0).len()
            == edits.fold_left(
            bytes.len() as int,
            |longer: int, edit: TextEditModel|
                longer + encode_utf8(edit.new_text).len() - (place_in(bytes, edit.end)->Ok_0
                    - place_in(bytes, edit.start)->Ok_0),
        ),
{
    law_edits_put_in_never_overlap(bytes, edits);
    lemma_spans_are_the_edits(bytes, edits);
    if let Ok(spans) = ordered_spans(bytes, edits) {
        let unordered = spans_of(bytes, edits)->Ok_0;
        assert forall|i: int| 0 <= i < spans.len() implies 0 <= (#[trigger] spans[i]).start
            <= spans[i].end <= bytes.len() by {
            assert(fits(bytes, spans[i]));
        }
        lemma_length_put_in(bytes, spans);
        order::law_order_keeps_everything::<(Range<usize>, String)>(unordered);
        vstd::seq_lib::lemma_fold_left_permutation(
            unordered,
            spans,
            grown(),
            bytes.len() as int,
        );
        lemma_grown_alike(bytes, unordered, edits, bytes.len() as int);
    }
}

/// Edits that each fit a text go into it exactly where no two of them overlap: where one starts
/// ahead of the end of the other and the other ahead of the end of the one. They are refused for
/// overlapping and for nothing else.
pub proof fn law_only_what_overlaps_is_refused(bytes: Seq<u8>, edits: Seq<TextEditModel>)
    requires
        valid_utf8(bytes),
        forall|i: int|
            0 <= i < edits.len() ==> (place_in(bytes, (#[trigger] edits[i]).start) matches Ok(start)
                && place_in(bytes, edits[i].end) matches Ok(end) && start <= end),
    ensures
        (exists|i: int, j: int|
            0 <= i < j < edits.len() && place_in(bytes, (#[trigger] edits[i]).start)->Ok_0
                < place_in(bytes, (#[trigger] edits[j]).end)->Ok_0 && place_in(
                bytes,
                edits[j].start,
            )->Ok_0 < place_in(bytes, edits[i].end)->Ok_0) ==> ordered_spans(bytes, edits) == Err::<
            Seq<Span>,
            Fault,
        >(Fault::EditsOverlap),
        (forall|i: int, j: int|
            0 <= i < j < edits.len() ==> !(place_in(bytes, (#[trigger] edits[i]).start)->Ok_0
                < place_in(bytes, (#[trigger] edits[j]).end)->Ok_0 && place_in(
                bytes,
                edits[j].start,
            )->Ok_0 < place_in(bytes, edits[i].end)->Ok_0)) ==> ordered_spans(bytes, edits) is Ok,
{
    lemma_spans_are_the_edits(bytes, edits);
    assert forall|i: int| 0 <= i < edits.len() implies span_of(bytes, #[trigger] edits[i]) is Ok by {
        assert(place_in(bytes, edits[i].start) is Ok);
    }
    let unordered = spans_of(bytes, edits)->Ok_0;
    let spans = order::ranked::<(Range<usize>, String)>(unordered);
    if ordered_spans(bytes, edits) is Ok {
        if exists|i: int, j: int|
            0 <= i < j < edits.len() && place_in(bytes, (#[trigger] edits[i]).start)->Ok_0
                < place_in(bytes, (#[trigger] edits[j]).end)->Ok_0 && place_in(
                bytes,
                edits[j].start,
            )->Ok_0 < place_in(bytes, edits[i].end)->Ok_0 {
            let (i, j) = choose|i: int, j: int|
                0 <= i < j < edits.len() && place_in(bytes, (#[trigger] edits[i]).start)->Ok_0
                    < place_in(bytes, (#[trigger] edits[j]).end)->Ok_0 && place_in(
                    bytes,
                    edits[j].start,
                )->Ok_0 < place_in(bytes, edits[i].end)->Ok_0;
            law_two_over_the_same_text_refuse_the_lot(bytes, edits, i, j);
        }
    } else {
        let at = choose|at: int| #[trigger] runs_on(spans, at);
        order::law_order_keeps_everything::<(Range<usize>, String)>(unordered);
        order::law_order_is_kept::<(Range<usize>, String)>(unordered);
        assert(runs_on(spans, at));
        let one = spans[at];
        let other = spans[at + 1];
        lemma_spans_fit(bytes, edits);
        assert(unordered.contains(one) && unordered.contains(other));
        let first = choose|i: int| 0 <= i < unordered.len() && unordered[i] == one;
        let second = choose|i: int| 0 <= i < unordered.len() && unordered[i] == other;
        assert(fits(bytes, unordered[first]) && fits(bytes, unordered[second]));
        assert(one.start < other.end && other.start < one.end);
        if one == other {
            lemma_twice_in_one_is_twice_in_both(spans, unordered, at, at + 1);
            let (p, q) = choose|p: int, q: int|
                0 <= p < q < unordered.len() && #[trigger] unordered[p] == one
                    && #[trigger] unordered[q] == one;
            assert(span_of(bytes, edits[p]) == Ok::<Span, Fault>(one));
            assert(span_of(bytes, edits[q]) == Ok::<Span, Fault>(one));
        } else {
            assert(span_of(bytes, edits[first]) == Ok::<Span, Fault>(one));
            assert(span_of(bytes, edits[second]) == Ok::<Span, Fault>(other));
        }
    }
}

/// Edits that do not go in are refused for the first of them that does not fit: for its start, or
/// else its end, where that is no place in the text, and otherwise for ending before it starts.
pub proof fn law_edits_are_refused_for_the_first_that_does_not_fit(
    bytes: Seq<u8>,
    edits: Seq<TextEditModel>,
    at: int,
)
    requires
        0 <= at < edits.len(),
        forall|i: int|
            0 <= i < at ==> (place_in(bytes, (#[trigger] edits[i]).start) matches Ok(start)
                && place_in(bytes, edits[i].end) matches Ok(end) && start <= end),
    ensures
        place_in(bytes, edits[at].start) matches Err(fault) ==> ordered_spans(bytes, edits) == Err::<
            Seq<Span>,
            Fault,
        >(fault),
        place_in(bytes, edits[at].start) is Ok ==> (place_in(bytes, edits[at].end) matches Err(
            fault,
        ) ==> ordered_spans(bytes, edits) == Err::<Seq<Span>, Fault>(fault)),
        place_in(bytes, edits[at].start) matches Ok(start) ==> (place_in(
            bytes,
            edits[at].end,
        ) matches Ok(end) ==> (end < start ==> ordered_spans(bytes, edits) == Err::<
            Seq<Span>,
            Fault,
        >(Fault::EditEndsBeforeItStarts))),
{
    let ahead = edits.take(at);
    assert forall|i: int| 0 <= i < ahead.len() implies span_of(bytes, #[trigger] ahead[i]) is Ok by {
        assert(ahead[i] == edits[i]);
        assert(place_in(bytes, edits[i].start) is Ok);
    }
    lemma_spans_are_the_edits(bytes, ahead);
    if let Err(fault) = span_of(bytes, edits[at]) {
        lemma_first_misfit(bytes, edits, at, fault);
    }
}

/// Edits put in the order they sit in come to what they come to in the order they were handed in,
/// and are refused for the very same thing.
pub proof fn law_edits_in_place_come_to_the_same(bytes: Seq<u8>, edits: Seq<TextEditModel>)
    requires
        valid_utf8(bytes),
    ensures
        match sitting(bytes, edits) {
            Ok(placed) => ordered_spans(bytes, placed) == ordered_spans(bytes, edits)
                && ordered_spans(bytes, edits) is Ok,
            Err(fault) => ordered_spans(bytes, edits) == Err::<Seq<Span>, Fault>(fault),
        },
{
    if let Ok(placed) = sitting(bytes, edits) {
        let unordered = spans_of(bytes, edits)->Ok_0;
        let spans = order::ranked::<(Range<usize>, String)>(unordered);
        lemma_spans_are_the_edits(bytes, edits);
        lemma_ranked_alike(bytes, unordered, edits);
        lemma_spans_are_the_edits(bytes, placed);
        order::law_order_is_kept::<(Range<usize>, String)>(unordered);
        order::law_things_in_order_are_left_as_they_are::<(Range<usize>, String)>(spans);
        assert forall|i: int| 0 <= i < placed.len() implies span_of(
            bytes,
            #[trigger] placed[i],
        ) is Ok by {
            assert(span_of(bytes, placed[i]) == Ok::<Span, Fault>(spans[i]));
        }
        assert(spans_of(bytes, placed)->Ok_0 =~= spans) by {
            assert forall|i: int| 0 <= i < placed.len() implies spans_of(bytes, placed)->Ok_0[i]
                == spans[i] by {
                assert(span_of(bytes, placed[i]) == Ok::<Span, Fault>(spans[i]));
            }
        }
    }
}

proof fn lemma_level_spans(spans: Seq<Span>, one: Span)
    ensures
        order::level_with::<(Range<usize>, String)>(spans, one) == spans.filter(
            |span: Span| span.start == one.start && span.end == one.end,
        ),
    decreases spans.len(),
{
    reveal(Seq::filter);
    if spans.len() > 0 {
        lemma_level_spans(spans.drop_last(), one);
    }
}

/// The stretches edits go into are those of the edits, each once, in the order they start in and, where
/// they start together, the order they end in. Edits of the very same stretch go in as they come.
pub proof fn law_stretches_are_in_order(bytes: Seq<u8>, edits: Seq<TextEditModel>, one: Span)
    ensures
        ordered_spans(bytes, edits) matches Ok(spans) ==> {
            let unordered = spans_of(bytes, edits)->Ok_0;
            &&& unordered.len() == edits.len()
            &&& forall|i: int|
                0 <= i < edits.len() ==> {
                    &&& place_in(bytes, (#[trigger] edits[i]).start) == Ok::<int, Fault>(
                        unordered[i].start,
                    )
                    &&& place_in(bytes, edits[i].end) == Ok::<int, Fault>(unordered[i].end)
                    &&& unordered[i].new_text == edits[i].new_text
                }
            &&& spans.to_multiset() == unordered.to_multiset()
            &&& forall|i: int, j: int|
                0 <= i < j < spans.len() ==> (#[trigger] spans[i]).start < (
                #[trigger] spans[j]).start || (spans[i].start == spans[j].start && spans[i].end
                    <= spans[j].end)
            &&& spans.filter(|span: Span| span.start == one.start && span.end == one.end)
                == unordered.filter(|span: Span| span.start == one.start && span.end == one.end)
        },
{
    lemma_spans_are_the_edits(bytes, edits);
    if let Ok(spans) = ordered_spans(bytes, edits) {
        let unordered = spans_of(bytes, edits)->Ok_0;
        order::law_order_keeps_everything::<(Range<usize>, String)>(unordered);
        order::law_order_is_kept::<(Range<usize>, String)>(unordered);
        order::law_order_leaves_equals_as_they_came::<(Range<usize>, String)>(unordered, one);
        lemma_level_spans(unordered, one);
        lemma_level_spans(spans, one);
        assert forall|i: int| 0 <= i < edits.len() implies {
            &&& place_in(bytes, (#[trigger] edits[i]).start) == Ok::<int, Fault>(
                unordered[i].start,
            )
            &&& place_in(bytes, edits[i].end) == Ok::<int, Fault>(unordered[i].end)
            &&& unordered[i].new_text == edits[i].new_text
        } by {
            assert(span_of(bytes, edits[i]) == Ok::<Span, Fault>(unordered[i]));
        }
        assert forall|i: int, j: int| 0 <= i < j < spans.len() implies (
        #[trigger] spans[i]).start < (#[trigger] spans[j]).start || (spans[i].start
            == spans[j].start && spans[i].end <= spans[j].end) by {
            assert(!<(Range<usize>, String)>::behind(spans[i], spans[j]));
        }
    }
}

} // verus!
