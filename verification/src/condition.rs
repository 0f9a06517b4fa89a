//! The `If-None-Match` request header.
//!
//! The header is either `*` or a list of entity tags with commas between
//! them, each with blanks and tabs around it as the sender pleases. Anything
//! else is malformed and asks for nothing.

use crate::etag::{
    is_etagc, is_opaque, lemma_tag_round_trip, parse_tag, strong_eq, tag_text, EntityTag,
    EntityTagView, QUOTE,
};
use crate::text::{comma_separated, lemma_comma_separated_front, views, COMMA};
use vstd::prelude::*;

verus! {

/// The blank.
pub const BLANK: u8 = 0x20;

/// The tab.
pub const TAB: u8 = 0x09;

/// The star that stands for every tag.
pub const STAR: u8 = 0x2a;

/// A blank or a tab.
pub open spec fn is_ows(b: u8) -> bool {
    b == BLANK || b == TAB
}

/// `s` without the blanks and tabs at its two ends.
pub open spec fn trim(s: Seq<u8>) -> Seq<u8>
    decreases s.len(),
{
    if s.len() > 0 && is_ows(s[0]) {
        trim(s.drop_first())
    } else if s.len() > 0 && is_ows(s.last()) {
        trim(s.drop_last())
    } else {
        s
    }
}

/// The pieces of `s` from the piece that began at `start`, the scan being at
/// `i`, inside a quoted string or not. A comma outside quotes ends a piece; a
/// quote opens or closes a quoted string.
pub open spec fn pieces_from(s: Seq<u8>, start: int, i: int, quoted: bool) -> Seq<Seq<u8>>
    decreases s.len() - i,
{
    if i >= s.len() {
        seq![s.subrange(start, s.len() as int)]
    } else if !quoted && s[i] == COMMA {
        seq![s.subrange(start, i)] + pieces_from(s, i + 1, i + 1, false)
    } else {
        pieces_from(s, start, i + 1, quoted != (s[i] == QUOTE))
    }
}

/// The pieces between the commas of `s` that stand outside quotes.
pub open spec fn pieces(s: Seq<u8>) -> Seq<Seq<u8>> {
    pieces_from(s, 0, 0, false)
}

/// The list elements among the pieces: each piece trimmed, the empty ones
/// left out.
pub open spec fn elements(pieces: Seq<Seq<u8>>) -> Seq<Seq<u8>>
    decreases pieces.len(),
{
    if pieces.len() == 0 {
        Seq::empty()
    } else if trim(pieces.last()).len() == 0 {
        elements(pieces.drop_last())
    } else {
        elements(pieces.drop_last()).push(trim(pieces.last()))
    }
}

/// What an `If-None-Match` header asks for, for contracts.
pub enum ConditionView {
    /// `*`: any current representation matches.
    Any,
    /// The listed tags, in the order of the header.
    Tags(Seq<EntityTagView>),
}

/// Whether each text spells a tag.
pub open spec fn all_tags(texts: Seq<Seq<u8>>) -> bool {
    forall|i: int| 0 <= i < texts.len() ==> (#[trigger] parse_tag(texts[i])) is Some
}

/// The tag that each text spells, in order.
pub open spec fn tags_of(texts: Seq<Seq<u8>>) -> Seq<EntityTagView> {
    texts.map_values(|t: Seq<u8>| parse_tag(t).unwrap())
}

/// The condition that a header value spells. A value is well formed when it
/// is `*`, or when it has at least one list element and each element is an
/// entity tag; any other value spells nothing.
pub open spec fn parse_condition(value: Seq<u8>) -> Option<ConditionView> {
    let texts = elements(pieces(value));
    if trim(value) == seq![STAR] {
        Some(ConditionView::Any)
    } else if texts.len() > 0 && all_tags(texts) {
        Some(ConditionView::Tags(tags_of(texts)))
    } else {
        None
    }
}

/// Whether the condition names the current tag, by the strong comparison.
pub open spec fn names(condition: ConditionView, current: EntityTagView) -> bool {
    match condition {
        ConditionView::Any => true,
        ConditionView::Tags(tags) => exists|i: int|
            0 <= i < tags.len() && strong_eq(#[trigger] tags[i], current),
    }
}

/// Whether a request with this `If-None-Match` header, absent or present,
/// already holds the current representation. An absent header and a
/// malformed one hold nothing.
pub open spec fn holds_current(header: Option<Seq<u8>>, current: EntityTagView) -> bool {
    match header {
        None => false,
        Some(value) => match parse_condition(value) {
            None => false,
            Some(condition) => names(condition, current),
        },
    }
}

/// Whether the scan of `a`, being at `i` and inside a quoted string or not,
/// reaches the end of `a` outside quotes without meeting a comma outside
/// quotes on its way.
pub open spec fn closes(a: Seq<u8>, i: int, quoted: bool) -> bool
    decreases a.len() - i,
{
    if i >= a.len() {
        !quoted
    } else if !quoted && a[i] == COMMA {
        false
    } else {
        closes(a, i + 1, quoted != (a[i] == QUOTE))
    }
}

/// The text of each tag in turn.
pub open spec fn texts_of(tags: Seq<EntityTagView>) -> Seq<Seq<u8>> {
    tags.map_values(|tag: EntityTagView| tag_text(tag))
}

/// The header that lists these tags, with a comma between neighbours.
pub open spec fn list_header(tags: Seq<EntityTagView>) -> Seq<u8> {
    comma_separated(texts_of(tags))
}

/// The value of a header field that was sent in several lines: the lines in
/// their order, with a comma and a blank between neighbours.
pub open spec fn field_value(lines: Seq<Seq<u8>>) -> Seq<u8>
    decreases lines.len(),
{
    if lines.len() == 0 {
        Seq::empty()
    } else if lines.len() == 1 {
        lines[0]
    } else {
        field_value(lines.drop_last()) + seq![COMMA, BLANK] + lines.last()
    }
}

/// What an `If-None-Match` header asks for.
pub enum Condition {
    /// `*`: any current representation matches.
    Any,
    /// The listed tags, in the order of the header.
    Tags(Vec<EntityTag>),
}

/// The view of each tag in turn.
pub open spec fn tag_views(tags: Seq<EntityTag>) -> Seq<EntityTagView> {
    tags.map_values(|tag: EntityTag| tag@)
}

impl View for Condition {
    type V = ConditionView;

    open spec fn view(&self) -> ConditionView {
        match self {
            Condition::Any => ConditionView::Any,
            Condition::Tags(tags) => ConditionView::Tags(tag_views(tags@)),
        }
    }
}

/// A list that holds the current tag names it.
proof fn lemma_names(tags: Seq<EntityTagView>, current: EntityTagView, k: int)
    requires
        0 <= k < tags.len(),
        strong_eq(tags[k], current),
    ensures
        names(ConditionView::Tags(tags), current),
{
    let condition = ConditionView::Tags(tags);
    assert(condition->Tags_0[k] == tags[k]);
}

/// The elements of the first pieces are the first elements of all pieces.
pub proof fn lemma_elements_prefix(pieces: Seq<Seq<u8>>, k: int)
    requires
        0 <= k <= pieces.len(),
    ensures
        elements(pieces.take(k)).len() <= elements(pieces).len(),
        forall|j: int|
            0 <= j < elements(pieces.take(k)).len() ==> elements(pieces)[j] == elements(
                pieces.take(k),
            )[j],
    decreases pieces.len(),
{
    if k < pieces.len() {
        lemma_elements_prefix(pieces.drop_last(), k);
        assert(pieces.drop_last().take(k) =~= pieces.take(k));
    } else {
        assert(pieces.take(k) =~= pieces);
    }
}

/// The bounds of `text[lo..hi]` without the blanks and tabs at its two ends.
fn trim_range(text: &[u8], lo: usize, hi: usize) -> (out: (usize, usize))
    requires
        lo <= hi <= text@.len(),
    ensures
        lo <= out.0 <= out.1 <= hi,
        text@.subrange(out.0 as int, out.1 as int) == trim(text@.subrange(lo as int, hi as int)),
{
    let mut a: usize = lo;
    while a < hi && (text[a] == BLANK || text[a] == TAB)
        invariant
            lo <= a <= hi <= text@.len(),
            trim(text@.subrange(a as int, hi as int)) == trim(text@.subrange(lo as int, hi as int)),
        decreases hi - a,
    {
        assert(text@.subrange(a as int, hi as int).drop_first() =~= text@.subrange(
            a + 1,
            hi as int,
        ));
        a += 1;
    }
    let mut b: usize = hi;
    while b > a && (text[b - 1] == BLANK || text[b - 1] == TAB)
        invariant
            lo <= a <= b <= hi <= text@.len(),
            a < hi ==> !is_ows(text@[a as int]),
            trim(text@.subrange(a as int, b as int)) == trim(text@.subrange(lo as int, hi as int)),
        decreases b - a,
    {
        assert(text@.subrange(a as int, b as int).drop_last() =~= text@.subrange(
            a as int,
            b - 1,
        ));
        b -= 1;
    }
    (a, b)
}

/// The bounds of the pieces of `text`, in order.
fn split(text: &[u8]) -> (out: Vec<(usize, usize)>)
    ensures
        out@.len() == pieces(text@).len(),
        forall|k: int|
            0 <= k < out@.len() ==> {
                &&& (#[trigger] out@[k]).0 <= out@[k].1 <= text@.len()
                &&& text@.subrange(out@[k].0 as int, out@[k].1 as int) == pieces(text@)[k]
            },
{
    let mut out: Vec<(usize, usize)> = Vec::new();
    let mut start: usize = 0;
    let mut quoted = false;
    let mut i: usize = 0;
    while i < text.len()
        invariant
            start <= i <= text@.len(),
            pieces(text@) =~= Seq::new(
                out@.len(),
                |k: int| text@.subrange(out@[k].0 as int, out@[k].1 as int),
            ) + pieces_from(text@, start as int, i as int, quoted),
            forall|k: int| 0 <= k < out@.len() ==> (#[trigger] out@[k]).0 <= out@[k].1 <= text@.len(),
        decreases text.len() - i,
    {
        let b: u8 = text[i];
        if !quoted && b == COMMA {
            out.push((start, i));
            start = i + 1;
        } else if b == QUOTE {
            quoted = !quoted;
        }
        i += 1;
    }
    out.push((start, i));
    out
}

impl Condition {
    /// The condition that a header value spells, if it is well formed.
    pub fn parse(value: &[u8]) -> (out: Option<Condition>)
        ensures
            match out {
                Some(condition) => parse_condition(value@) == Some(condition@),
                None => parse_condition(value@) is None,
            },
    {
        assert(value@.subrange(0, value@.len() as int) =~= value@);
        let (a, b): (usize, usize) = trim_range(value, 0, value.len());
        if b - a == 1 && value[a] == STAR {
            assert(value@.subrange(a as int, b as int) =~= seq![STAR]);
            return Some(Condition::Any);
        }
        proof {
            let trimmed = value@.subrange(a as int, b as int);
            assert(trimmed == trim(value@));
            if trimmed == seq![STAR] {
                assert(trimmed.len() == 1);
                assert(trimmed[0] == value@[a as int]);
            }
        }
        let ranges = split(value);
        let ghost all = pieces(value@);
        let mut tags: Vec<EntityTag> = Vec::new();
        let mut k: usize = 0;
        while k < ranges.len()
            invariant
                k <= ranges@.len() == all.len(),
                all == pieces(value@),
                trim(value@) != seq![STAR],
                forall|j: int|
                    0 <= j < ranges@.len() ==> {
                        &&& (#[trigger] ranges@[j]).0 <= ranges@[j].1 <= value@.len()
                        &&& value@.subrange(ranges@[j].0 as int, ranges@[j].1 as int) == all[j]
                    },
                all_tags(elements(all.take(k as int))),
                tag_views(tags@) =~= tags_of(elements(all.take(k as int))),
            decreases ranges.len() - k,
        {
            let ghost before = elements(all.take(k as int));
            let ghost after = elements(all.take(k + 1));
            proof {
                assert(all.take(k + 1).drop_last() =~= all.take(k as int));
                assert(all.take(k + 1).last() == all[k as int]);
            }
            let range: (usize, usize) = ranges[k];
            let trimmed: (usize, usize) = trim_range(value, range.0, range.1);
            let ghost element = value@.subrange(trimmed.0 as int, trimmed.1 as int);
            assert(element == trim(all[k as int]));
            if trimmed.0 < trimmed.1 {
                assert(after =~= before.push(element));
                match EntityTag::parse_range(value, trimmed.0, trimmed.1) {
                    Some(tag) => {
                        let ghost earlier = tags@;
                        tags.push(tag);
                        proof {
                            assert(tags@ == earlier.push(tag));
                            assert(tag_views(earlier) =~= tags_of(before));
                            assert(tag_views(earlier).len() == earlier.len());
                            assert(tags_of(before).len() == before.len());
                            assert(earlier.len() == before.len());
                            assert(tags@.len() == after.len());
                            assert(tag_views(tags@).len() == after.len());
                            assert(parse_tag(element) == Some(tag@));
                            assert forall|j: int| 0 <= j < after.len() implies (#[trigger] parse_tag(
                                after[j],
                            )) is Some by {
                                if j < before.len() {
                                    assert(after[j] == before[j]);
                                }
                            }
                            assert forall|j: int| 0 <= j < after.len() implies tag_views(tags@)[j]
                                == tags_of(after)[j] by {
                                if j < before.len() {
                                    assert(tag_views(tags@)[j] == tag_views(earlier)[j]);
                                    assert(tags_of(after)[j] == tags_of(before)[j]);
                                }
                            }
                            assert(tag_views(tags@) =~= tags_of(after));
                        }
                    },
                    None => {
                        proof {
                            lemma_elements_prefix(all, k + 1);
                            let last = after.len() - 1;
                            assert(after[last] == element);
                            assert(elements(all)[last] == element);
                            assert(parse_tag(elements(all)[last]) is None);
                            assert(!all_tags(elements(all)));
                        }
                        return None;
                    },
                }
            } else {
                assert(element.len() == 0);
                assert(after =~= before);
            }
            k += 1;
        }
        assert(all.take(k as int) =~= all);
        if tags.len() == 0 {
            None
        } else {
            Some(Condition::Tags(tags))
        }
    }

    /// Whether the condition names the current tag, by the strong
    /// comparison.
    pub fn names(&self, current: &EntityTag) -> (yes: bool)
        ensures
            yes == names(self@, current@),
    {
        match self {
            Condition::Any => true,
            Condition::Tags(tags) => {
                let mut k: usize = 0;
                while k < tags.len()
                    invariant
                        k <= tags@.len(),
                        self@ == ConditionView::Tags(tag_views(tags@)),
                        forall|j: int|
                            0 <= j < k ==> !strong_eq(#[trigger] tag_views(tags@)[j], current@),
                    decreases tags.len() - k,
                {
                    if tags[k].strong_eq(current) {
                        proof {
                            let views = tag_views(tags@);
                            assert(views.len() == tags@.len());
                            assert(views[k as int] == tags@[k as int]@);
                            lemma_names(views, current@, k as int);
                        }
                        return true;
                    }
                    k += 1;
                }
                false
            },
        }
    }
}

/// The one value of a header field sent in these lines, if it was sent at
/// all.
pub fn combine(lines: &Vec<Vec<u8>>) -> (value: Option<Vec<u8>>)
    ensures
        match value {
            Some(bytes) => lines@.len() > 0 && bytes@ == field_value(views(lines@)),
            None => lines@.len() == 0,
        },
{
    if lines.len() == 0 {
        return None;
    }
    let mut value: Vec<u8> = Vec::new();
    let mut i: usize = 0;
    while i < lines.len()
        invariant
            i <= lines@.len(),
            value@ == field_value(views(lines@).take(i as int)),
        decreases lines.len() - i,
    {
        let ghost before = views(lines@).take(i as int);
        let ghost after = views(lines@).take(i + 1);
        proof {
            assert(after.drop_last() =~= before);
            assert(after.last() == lines@[i as int]@);
        }
        if i > 0 {
            value.push(COMMA);
            value.push(BLANK);
        }
        value.extend_from_slice(lines[i].as_slice());
        proof {
            if i == 0 {
                assert(value@ =~= field_value(after));
            } else {
                assert(value@ =~= field_value(before) + seq![COMMA, BLANK] + after.last());
            }
        }
        i += 1;
    }
    proof {
        assert(views(lines@).take(lines@.len() as int) =~= views(lines@));
    }
    Some(value)
}

/// Whether a request with this `If-None-Match` header, absent or present,
/// already holds the current representation.
pub fn holds_current_tag(header: Option<&[u8]>, current: &EntityTag) -> (yes: bool)
    ensures
        yes == holds_current(
            match header {
                Some(value) => Some(value@),
                None => None,
            },
            current@,
        ),
{
    match header {
        None => false,
        Some(value) => match Condition::parse(value) {
            None => false,
            Some(condition) => condition.names(current),
        },
    }
}

/// Trimming leaves neither a blank nor a tab at either end, and a text
/// without them at its ends is left as it is.
pub proof fn lemma_trim_ends(s: Seq<u8>)
    ensures
        trim(s).len() > 0 ==> !is_ows(trim(s)[0]) && !is_ows(trim(s).last()),
        trim(s).len() <= s.len(),
        (s.len() == 0 || (!is_ows(s[0]) && !is_ows(s.last()))) ==> trim(s) == s,
    decreases s.len(),
{
    if s.len() > 0 && is_ows(s[0]) {
        lemma_trim_ends(s.drop_first());
    } else if s.len() > 0 && is_ows(s.last()) {
        lemma_trim_ends(s.drop_last());
    }
}

/// Trimming a text that does not begin with a blank or a tab leaves its
/// first byte where it is.
proof fn lemma_trim_front(s: Seq<u8>)
    requires
        s.len() > 0,
        !is_ows(s[0]),
    ensures
        trim(s).len() > 0,
        trim(s)[0] == s[0],
    decreases s.len(),
{
    if is_ows(s.last()) {
        assert(s.len() > 1);
        assert(s.drop_last()[0] == s[0]);
        lemma_trim_front(s.drop_last());
    }
}

/// The pieces from any point of the scan on, joined by commas, are the text
/// from the start of the piece the scan is in.
proof fn lemma_pieces_from_join(s: Seq<u8>, start: int, i: int, quoted: bool)
    requires
        0 <= start <= i <= s.len(),
    ensures
        pieces_from(s, start, i, quoted).len() > 0,
        comma_separated(pieces_from(s, start, i, quoted)) == s.subrange(start, s.len() as int),
    decreases s.len() - i,
{
    if i >= s.len() {
    } else if !quoted && s[i] == COMMA {
        let rest = pieces_from(s, i + 1, i + 1, false);
        lemma_pieces_from_join(s, i + 1, i + 1, false);
        lemma_comma_separated_front(s.subrange(start, i), rest);
        assert(s.subrange(start, i) + seq![COMMA] + s.subrange(i + 1, s.len() as int)
            =~= s.subrange(start, s.len() as int));
    } else {
        lemma_pieces_from_join(s, start, i + 1, quoted != (s[i] == QUOTE));
    }
}

/// Splitting loses nothing: the pieces of a text, joined by commas, are the
/// text.
pub proof fn lemma_pieces_join(s: Seq<u8>)
    ensures
        pieces(s).len() > 0,
        comma_separated(pieces(s)) == s,
{
    lemma_pieces_from_join(s, 0, 0, false);
    assert(s.subrange(0, s.len() as int) =~= s);
}

/// A text that closes is one piece.
proof fn lemma_closed_alone(a: Seq<u8>, i: int, quoted: bool)
    requires
        0 <= i <= a.len(),
        closes(a, i, quoted),
    ensures
        pieces_from(a, 0, i, quoted) == seq![a],
    decreases a.len() - i,
{
    if i >= a.len() {
        assert(a.subrange(0, a.len() as int) =~= a);
    } else {
        lemma_closed_alone(a, i + 1, quoted != (a[i] == QUOTE));
    }
}

/// A text that closes, followed by a comma and more, is the first piece, and
/// the scan goes on after the comma outside quotes.
proof fn lemma_closed_then(a: Seq<u8>, b: Seq<u8>, i: int, quoted: bool)
    requires
        0 <= i <= a.len(),
        closes(a, i, quoted),
    ensures
        pieces_from(a + seq![COMMA] + b, 0, i, quoted) == seq![a] + pieces_from(
            a + seq![COMMA] + b,
            a.len() as int + 1,
            a.len() as int + 1,
            false,
        ),
    decreases a.len() - i,
{
    let s = a + seq![COMMA] + b;
    if i == a.len() {
        assert(s[i] == COMMA);
        assert(s.subrange(0, i) =~= a);
    } else {
        assert(s[i] == a[i]);
        lemma_closed_then(a, b, i + 1, quoted != (a[i] == QUOTE));
    }
}

/// The pieces do not depend on what stands before the piece the scan is in.
proof fn lemma_pieces_shift(s: Seq<u8>, k: int, start: int, i: int, quoted: bool)
    requires
        0 <= k,
        0 <= start <= i,
        k + i <= s.len(),
    ensures
        pieces_from(s, k + start, k + i, quoted) == pieces_from(s.skip(k), start, i, quoted),
    decreases s.len() - (k + i),
{
    let t = s.skip(k);
    if k + i >= s.len() {
        assert(s.subrange(k + start, s.len() as int) =~= t.subrange(start, t.len() as int));
    } else {
        assert(t[i] == s[k + i]);
        if !quoted && s[k + i] == COMMA {
            assert(s.subrange(k + start, k + i) =~= t.subrange(start, i));
            lemma_pieces_shift(s, k, i + 1, i + 1, false);
        } else {
            lemma_pieces_shift(s, k, start, i + 1, quoted != (s[k + i] == QUOTE));
        }
    }
}

/// Texts that close, joined by commas, split into themselves.
pub proof fn lemma_joined_pieces(texts: Seq<Seq<u8>>)
    requires
        texts.len() > 0,
        forall|i: int| 0 <= i < texts.len() ==> closes(#[trigger] texts[i], 0, false),
    ensures
        pieces(comma_separated(texts)) == texts,
    decreases texts.len(),
{
    let first = texts[0];
    if texts.len() == 1 {
        lemma_closed_alone(first, 0, false);
        assert(texts =~= seq![first]);
    } else {
        let rest = texts.skip(1);
        assert(texts =~= seq![first] + rest);
        assert forall|i: int| 0 <= i < rest.len() implies closes(#[trigger] rest[i], 0, false) by {
            assert(rest[i] == texts[i + 1]);
        }
        lemma_comma_separated_front(first, rest);
        let b = comma_separated(rest);
        let s = first + seq![COMMA] + b;
        lemma_closed_then(first, b, 0, false);
        let k = first.len() as int + 1;
        lemma_pieces_shift(s, k, 0, 0, false);
        assert(s.skip(k) =~= b);
        lemma_joined_pieces(rest);
    }
}

/// Inside the quotes of a text, up to the quote that ends it, the scan
/// closes.
proof fn lemma_quoted_closes(s: Seq<u8>, open: int, i: int)
    requires
        0 <= open < i <= s.len() - 1,
        s[s.len() - 1] == QUOTE,
        forall|j: int| open < j < s.len() - 1 ==> s[j] != QUOTE,
    ensures
        closes(s, i, true),
    decreases s.len() - i,
{
    if i == s.len() - 1 {
        assert(closes(s, i + 1, false));
    } else {
        lemma_quoted_closes(s, open, i + 1);
    }
}

/// The text of a tag closes: a comma in it stands between its quotes.
pub proof fn lemma_tag_closes(tag: EntityTagView)
    requires
        is_opaque(tag.opaque),
    ensures
        closes(tag_text(tag), 0, false),
{
    let s = tag_text(tag);
    if tag.weak {
        assert forall|j: int| 2 < j < s.len() - 1 implies s[j] != QUOTE by {
            assert(s[j] == tag.opaque[j - 3]);
            assert(is_etagc(tag.opaque[j - 3]));
        }
        lemma_quoted_closes(s, 2, 3);
        assert(closes(s, 2, false) == closes(s, 3, true));
        assert(closes(s, 1, false) == closes(s, 2, false));
        assert(closes(s, 0, false) == closes(s, 1, false));
    } else {
        assert forall|j: int| 0 < j < s.len() - 1 implies s[j] != QUOTE by {
            assert(s[j] == tag.opaque[j - 1]);
            assert(is_etagc(tag.opaque[j - 1]));
        }
        lemma_quoted_closes(s, 0, 1);
        assert(closes(s, 0, false) == closes(s, 1, true));
    }
}

/// Pieces that neither begin nor end with a blank or a tab, and are not
/// empty, are the list elements as they stand.
proof fn lemma_tidy_elements(texts: Seq<Seq<u8>>)
    requires
        forall|i: int|
            0 <= i < texts.len() ==> (#[trigger] texts[i]).len() > 0 && !is_ows(texts[i][0])
                && !is_ows(texts[i].last()),
    ensures
        elements(texts) == texts,
    decreases texts.len(),
{
    if texts.len() > 0 {
        let earlier = texts.drop_last();
        assert forall|i: int| 0 <= i < earlier.len() implies (#[trigger] earlier[i]).len() > 0
            && !is_ows(earlier[i][0]) && !is_ows(earlier[i].last()) by {
            assert(earlier[i] == texts[i]);
        }
        lemma_tidy_elements(earlier);
        assert(trim(texts.last()) == texts.last());
        assert(elements(texts) =~= texts);
    } else {
        assert(elements(texts) =~= texts);
    }
}

/// A header that lists tags holds exactly these tags, in their order: it
/// names the current tag exactly when one of them equals it by the strong
/// comparison.
pub proof fn lemma_list_header(tags: Seq<EntityTagView>, current: EntityTagView)
    requires
        tags.len() > 0,
        forall|i: int| 0 <= i < tags.len() ==> is_opaque((#[trigger] tags[i]).opaque),
    ensures
        parse_condition(list_header(tags)) == Some(ConditionView::Tags(tags)),
        holds_current(Some(list_header(tags)), current) == names(
            ConditionView::Tags(tags),
            current,
        ),
{
    let texts = texts_of(tags);
    let header = list_header(tags);
    assert forall|i: int| 0 <= i < texts.len() implies closes(#[trigger] texts[i], 0, false)
        && texts[i].len() > 0 && !is_ows(texts[i][0]) && !is_ows(texts[i].last()) && parse_tag(
        texts[i],
    ) == Some(tags[i]) by {
        assert(texts[i] == tag_text(tags[i]));
        lemma_tag_closes(tags[i]);
        lemma_tag_round_trip(tags[i]);
    }
    lemma_joined_pieces(texts);
    lemma_tidy_elements(texts);
    assert(all_tags(texts));
    assert(tags_of(texts) =~= tags);
    // The header begins as its first tag begins, so it is not `*`.
    let first = texts[0];
    if texts.len() == 1 {
        assert(header == first);
    } else {
        assert(texts =~= seq![first] + texts.skip(1));
        lemma_comma_separated_front(first, texts.skip(1));
    }
    assert(header[0] == first[0]);
    assert(first[0] != STAR && !is_ows(first[0]));
    lemma_trim_front(header);
    assert(trim(header) != seq![STAR]);
}

/// A header that is the text of one tag holds that tag and no other: it
/// names the current tag exactly when the two are equal by the strong
/// comparison.
pub proof fn lemma_one_tag_header(tag: EntityTagView, current: EntityTagView)
    requires
        is_opaque(tag.opaque),
    ensures
        parse_condition(tag_text(tag)) == Some(ConditionView::Tags(seq![tag])),
        holds_current(Some(tag_text(tag)), current) == strong_eq(tag, current),
{
    let tags = seq![tag];
    assert(texts_of(tags) =~= seq![tag_text(tag)]);
    assert(list_header(tags) == tag_text(tag));
    lemma_list_header(tags, current);
    let condition = ConditionView::Tags(tags);
    if strong_eq(tag, current) {
        lemma_names(tags, current, 0);
    } else {
        assert(condition->Tags_0 == tags);
        assert(!names(condition, current));
    }
}

/// The header `*` names every tag.
pub proof fn lemma_any_header(current: EntityTagView)
    ensures
        parse_condition(seq![STAR]) == Some(ConditionView::Any),
        holds_current(Some(seq![STAR]), current),
{
    assert(trim(seq![STAR]) == seq![STAR]);
}

} // verus!
