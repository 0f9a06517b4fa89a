//! Entity tags.
//!
//! An entity tag is an optional `W/` followed by a quoted string without a
//! quote in it. Two tags are equal by the strong comparison when neither is
//! weak and the two quoted strings are the same.

use vstd::prelude::*;
use vstd::slice::{slice_subrange, slice_to_vec};

verus! {

/// The double quote.
pub const QUOTE: u8 = 0x22;

/// The letter that begins a weak tag.
pub const WEAK: u8 = 0x57;

/// The slash that follows it.
pub const SLASH: u8 = 0x2f;

/// A character that may stand inside the quotes of an entity tag: `!`, any
/// visible ASCII character but the quote, or a byte of 0x80 and above.
pub open spec fn is_etagc(b: u8) -> bool {
    b == 0x21 || (0x23 <= b && b <= 0x7e) || b >= 0x80
}

/// Whether every byte may stand inside the quotes of an entity tag.
pub open spec fn is_opaque(s: Seq<u8>) -> bool {
    forall|i: int| 0 <= i < s.len() ==> is_etagc(#[trigger] s[i])
}

/// What an entity tag is, for contracts: whether it is weak, and the bytes
/// between its quotes.
pub struct EntityTagView {
    pub weak: bool,
    pub opaque: Seq<u8>,
}

/// The text of a tag: `W/` if it is weak, then the quoted bytes.
pub open spec fn tag_text(tag: EntityTagView) -> Seq<u8> {
    if tag.weak {
        seq![WEAK, SLASH, QUOTE] + tag.opaque + seq![QUOTE]
    } else {
        seq![QUOTE] + tag.opaque + seq![QUOTE]
    }
}

/// The tag that a text spells, if it spells one.
pub open spec fn parse_tag(s: Seq<u8>) -> Option<EntityTagView> {
    if s.len() >= 2 && s[0] == QUOTE && s.last() == QUOTE && is_opaque(
        s.subrange(1, s.len() - 1),
    ) {
        Some(EntityTagView { weak: false, opaque: s.subrange(1, s.len() - 1) })
    } else if s.len() >= 4 && s[0] == WEAK && s[1] == SLASH && s[2] == QUOTE && s.last() == QUOTE
        && is_opaque(s.subrange(3, s.len() - 1)) {
        Some(EntityTagView { weak: true, opaque: s.subrange(3, s.len() - 1) })
    } else {
        None
    }
}

/// The strong comparison: neither tag is weak, and the bytes between their
/// quotes are the same.
pub open spec fn strong_eq(a: EntityTagView, b: EntityTagView) -> bool {
    !a.weak && !b.weak && a.opaque == b.opaque
}

/// An entity tag.
pub struct EntityTag {
    weak: bool,
    opaque: Vec<u8>,
}

impl View for EntityTag {
    type V = EntityTagView;

    closed spec fn view(&self) -> EntityTagView {
        EntityTagView { weak: self.weak, opaque: self.opaque@ }
    }
}

/// Whether two byte strings are the same.
pub fn same_bytes(a: &[u8], b: &[u8]) -> (same: bool)
    ensures
        same == (a@ == b@),
{
    if a.len() != b.len() {
        return false;
    }
    let mut i: usize = 0;
    while i < a.len()
        invariant
            i <= a.len(),
            a.len() == b.len(),
            forall|k: int| 0 <= k < i ==> a@[k] == b@[k],
        decreases a.len() - i,
    {
        if a[i] != b[i] {
            return false;
        }
        i += 1;
    }
    assert(a@ =~= b@);
    true
}

/// Whether every byte in `text[lo..hi]` may stand inside the quotes of a tag.
fn opaque_range(text: &[u8], lo: usize, hi: usize) -> (yes: bool)
    requires
        lo <= hi <= text@.len(),
    ensures
        yes == is_opaque(text@.subrange(lo as int, hi as int)),
{
    let ghost range = text@.subrange(lo as int, hi as int);
    let mut i: usize = lo;
    while i < hi
        invariant
            lo <= i <= hi <= text@.len(),
            range == text@.subrange(lo as int, hi as int),
            forall|k: int| 0 <= k < i - lo ==> is_etagc(#[trigger] range[k]),
        decreases hi - i,
    {
        let b: u8 = text[i];
        if !(b == 0x21 || (0x23 <= b && b <= 0x7e) || b >= 0x80) {
            assert(!is_etagc(range[i - lo]));
            return false;
        }
        i += 1;
    }
    true
}

impl EntityTag {
    /// The bytes between the quotes hold no quote, no blank and no control
    /// character.
    #[verifier::type_invariant]
    pub closed spec fn well_formed(&self) -> bool {
        is_opaque(self.opaque@)
    }

    /// The strong tag with `opaque` between its quotes, if every byte may
    /// stand there.
    pub fn strong(opaque: Vec<u8>) -> (out: Option<EntityTag>)
        ensures
            out is Some <==> is_opaque(opaque@),
            out matches Some(tag) ==> tag@ == (EntityTagView { weak: false, opaque: opaque@ }),
    {
        let ok = opaque_range(opaque.as_slice(), 0, opaque.len());
        assert(opaque@.subrange(0, opaque@.len() as int) =~= opaque@);
        if ok {
            Some(EntityTag { weak: false, opaque })
        } else {
            None
        }
    }

    /// The tag that `text[lo..hi]` spells, if it spells one.
    pub(crate) fn parse_range(text: &[u8], lo: usize, hi: usize) -> (out: Option<EntityTag>)
        requires
            lo <= hi <= text@.len(),
        ensures
            match out {
                Some(tag) => parse_tag(text@.subrange(lo as int, hi as int)) == Some(tag@),
                None => parse_tag(text@.subrange(lo as int, hi as int)) is None,
            },
    {
        let ghost s = text@.subrange(lo as int, hi as int);
        let len: usize = hi - lo;
        if len < 2 || text[hi - 1] != QUOTE {
            assert(s.len() >= 2 ==> s.last() == text@[hi - 1]);
            return None;
        }
        assert(s.last() == text@[hi - 1]);
        assert(s[0] == text@[lo as int]);
        if text[lo] == QUOTE {
            assert(s.subrange(1, s.len() - 1) =~= text@.subrange(lo + 1, hi - 1));
            if opaque_range(text, lo + 1, hi - 1) {
                let opaque = slice_to_vec(slice_subrange(text, lo + 1, hi - 1));
                Some(EntityTag { weak: false, opaque })
            } else {
                None
            }
        } else if len >= 4 && text[lo] == WEAK && text[lo + 1] == SLASH && text[lo + 2] == QUOTE {
            assert(s[1] == text@[lo + 1]);
            assert(s[2] == text@[lo + 2]);
            assert(s.subrange(3, s.len() - 1) =~= text@.subrange(lo + 3, hi - 1));
            if opaque_range(text, lo + 3, hi - 1) {
                let opaque = slice_to_vec(slice_subrange(text, lo + 3, hi - 1));
                Some(EntityTag { weak: true, opaque })
            } else {
                None
            }
        } else {
            assert(s.len() >= 4 ==> s[1] == text@[lo + 1] && s[2] == text@[lo + 2]);
            None
        }
    }

    /// The tag that `text` spells, if it spells one.
    pub fn parse(text: &[u8]) -> (out: Option<EntityTag>)
        ensures
            match out {
                Some(tag) => parse_tag(text@) == Some(tag@),
                None => parse_tag(text@) is None,
            },
    {
        assert(text@.subrange(0, text@.len() as int) =~= text@);
        EntityTag::parse_range(text, 0, text.len())
    }

    /// Whether the tag is weak.
    pub fn is_weak(&self) -> (weak: bool)
        ensures
            weak == self@.weak,
    {
        self.weak
    }

    /// The bytes between the quotes.
    pub fn opaque(&self) -> (opaque: &[u8])
        ensures
            opaque@ == self@.opaque,
            is_opaque(self@.opaque),
    {
        proof {
            use_type_invariant(self);
        }
        self.opaque.as_slice()
    }

    /// The text of the tag, as it stands in a header.
    pub fn to_bytes(&self) -> (text: Vec<u8>)
        ensures
            text@ == tag_text(self@),
            parse_tag(text@) == Some(self@),
    {
        proof {
            use_type_invariant(self);
            lemma_tag_round_trip(self@);
        }
        let mut text: Vec<u8> = Vec::new();
        if self.weak {
            text.push(WEAK);
            text.push(SLASH);
        }
        text.push(QUOTE);
        text.extend_from_slice(self.opaque.as_slice());
        text.push(QUOTE);
        assert(text@ =~= tag_text(self@));
        text
    }

    /// The strong comparison of two tags.
    pub fn strong_eq(&self, other: &EntityTag) -> (same: bool)
        ensures
            same == strong_eq(self@, other@),
    {
        !self.weak && !other.weak && same_bytes(self.opaque.as_slice(), other.opaque.as_slice())
    }
}

/// The text of a tag spells that tag.
pub proof fn lemma_tag_round_trip(tag: EntityTagView)
    requires
        is_opaque(tag.opaque),
    ensures
        parse_tag(tag_text(tag)) == Some(tag),
{
    let s = tag_text(tag);
    if tag.weak {
        assert(s.subrange(3, s.len() - 1) =~= tag.opaque);
        assert(s[0] == WEAK);
    } else {
        assert(s.subrange(1, s.len() - 1) =~= tag.opaque);
    }
}

/// A text that spells a tag is the text of that tag.
pub proof fn lemma_parse_tag_text(s: Seq<u8>)
    requires
        parse_tag(s) is Some,
    ensures
        tag_text(parse_tag(s).unwrap()) == s,
        is_opaque(parse_tag(s).unwrap().opaque),
{
    let tag = parse_tag(s).unwrap();
    assert(tag_text(tag) =~= s);
}

} // verus!
