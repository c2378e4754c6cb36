use vstd::prelude::*;

use crate::number::{is_number, lemma_number_is_word, negate, push_all, Coord};

verus! {

pub const SPACE: u8 = 0x20;
pub const TAG_POSITION: u8 = 0x70;
pub const TAG_ACTION: u8 = 0x61;

/// ASCII whitespace as `u8::is_ascii_whitespace` defines it.
pub open spec fn is_space(b: u8) -> bool {
    b == 0x20u8 || b == 0x09u8 || b == 0x0Au8 || b == 0x0Cu8 || b == 0x0Du8
}

/// The tokens of `s`: its maximal runs of non-whitespace bytes, in order.
/// Defined by reading `s` one byte at a time from the left.
pub open spec fn tokens(s: Seq<u8>) -> Seq<Seq<u8>>
    decreases s.len(),
{
    if s.len() == 0 {
        Seq::empty()
    } else {
        let prev = tokens(s.drop_last());
        let c = s.last();
        if is_space(c) {
            prev
        } else if s.len() >= 2 && !is_space(s[s.len() - 2]) {
            prev.drop_last().push(prev.last().push(c))
        } else {
            prev.push(seq![c])
        }
    }
}

pub open spec fn no_space(w: Seq<u8>) -> bool {
    forall|i: int| 0 <= i < w.len() ==> !is_space(#[trigger] w[i])
}

/// The byte strings held by a vector of byte vectors.
pub open spec fn views(v: Seq<Vec<u8>>) -> Seq<Seq<u8>> {
    v.map_values(|t: Vec<u8>| t@)
}

pub fn byte_is_space(b: u8) -> (r: bool)
    ensures
        r == is_space(b),
{
    b == 0x20u8 || b == 0x09u8 || b == 0x0Au8 || b == 0x0Cu8 || b == 0x0Du8
}

/// Splits `s` on ASCII whitespace.
pub fn split_tokens(s: &[u8]) -> (r: Vec<Vec<u8>>)
    ensures
        views(r@) == tokens(s@),
{
    let mut toks: Vec<Vec<u8>> = Vec::new();
    let mut cur: Vec<u8> = Vec::new();
    let mut i: usize = 0;
    while i < s.len()
        invariant
            i <= s.len(),
            cur@.len() == 0 ==> views(toks@) == tokens(s@.subrange(0, i as int)),
            cur@.len() > 0 ==> views(toks@).push(cur@) == tokens(s@.subrange(0, i as int)),
            cur@.len() > 0 <==> (i > 0 && !is_space(s@[i - 1])),
        decreases s.len() - i,
    {
        let c = s[i];
        let ghost before = toks@;
        let ghost cur_before = cur@;
        proof {
            let sub = s@.subrange(0, i as int + 1);
            assert(sub.drop_last() =~= s@.subrange(0, i as int));
            assert(sub.last() == c);
            if i > 0 {
                assert(sub[sub.len() - 2] == s@[i - 1]);
            }
        }
        if byte_is_space(c) {
            if cur.len() > 0 {
                toks.push(cur);
                assert(views(toks@) =~= views(before).push(cur_before));
                cur = Vec::new();
            }
        } else {
            cur.push(c);
            proof {
                if cur_before.len() > 0 {
                    let t = views(before).push(cur_before);
                    assert(t.drop_last() =~= views(before));
                    assert(views(before).push(cur@) =~= t.drop_last().push(t.last().push(c)));
                } else {
                    assert(cur@ =~= seq![c]);
                }
            }
        }
        i = i + 1;
    }
    let ghost before = toks@;
    let ghost cur_before = cur@;
    if cur.len() > 0 {
        toks.push(cur);
        assert(views(toks@) =~= views(before).push(cur_before));
    }
    proof {
        assert(s@.subrange(0, s@.len() as int) == s@);
    }
    toks
}

/// A position in the plane.
pub struct Position {
    pub x: Coord,
    pub y: Coord,
}

impl View for Position {
    type V = (Seq<u8>, Seq<u8>);

    open spec fn view(&self) -> (Seq<u8>, Seq<u8>) {
        (self.x@, self.y@)
    }
}

impl Clone for Position {
    fn clone(&self) -> (r: Position)
        ensures
            r@ == self@,
    {
        Position { x: self.x.clone(), y: self.y.clone() }
    }
}

/// A record read off the wire.
pub enum Record {
    /// The sender's position, already mirrored into the receiver's frame.
    Position(Position),
    Action,
}

pub enum RecordView {
    Position(Seq<u8>, Seq<u8>),
    Action,
}

impl View for Record {
    type V = RecordView;

    open spec fn view(&self) -> RecordView {
        match self {
            Record::Position(p) => RecordView::Position(p.x@, p.y@),
            Record::Action => RecordView::Action,
        }
    }
}

/// Bytes that are no well-formed record.
#[derive(Debug, Clone, Copy, PartialEq, Eq, Structural)]
pub struct ParseError;

/// The wire form of a position: `<x> <y> p`.
pub open spec fn position_wire(x: Seq<u8>, y: Seq<u8>) -> Seq<u8> {
    x + seq![SPACE] + y + seq![SPACE] + seq![TAG_POSITION]
}

/// The wire form of an action: `a`.
pub open spec fn action_wire() -> Seq<u8> {
    seq![TAG_ACTION]
}

/// What a datagram decodes to: a position tag after exactly two numbers,
/// whose negations it carries, or an action tag alone.
pub open spec fn decoded(s: Seq<u8>) -> Option<RecordView> {
    let t = tokens(s);
    if t.len() == 3 && t[2] == seq![TAG_POSITION] && is_number(t[0]) && is_number(t[1]) {
        Some(RecordView::Position(negate(t[0]), negate(t[1])))
    } else if t.len() == 1 && t[0] == seq![TAG_ACTION] {
        Some(RecordView::Action)
    } else {
        None
    }
}

/// Encodes the position `p` for the wire.
pub fn encode_position(p: &Position) -> (r: Vec<u8>)
    ensures
        r@ == position_wire(p.x@, p.y@),
{
    let mut v: Vec<u8> = Vec::new();
    push_all(&mut v, p.x.text());
    v.push(SPACE);
    push_all(&mut v, p.y.text());
    v.push(SPACE);
    v.push(TAG_POSITION);
    assert(v@ =~= position_wire(p.x@, p.y@));
    v
}

/// Encodes an action for the wire.
pub fn encode_action() -> (r: Vec<u8>)
    ensures
        r@ == action_wire(),
{
    let mut v: Vec<u8> = Vec::new();
    v.push(TAG_ACTION);
    assert(v@ =~= action_wire());
    v
}

fn is_tag(t: &Vec<u8>, tag: u8) -> (r: bool)
    ensures
        r == (t@ == seq![tag]),
{
    if t.len() == 1 && t[0] == tag {
        assert(t@ =~= seq![tag]);
        true
    } else {
        false
    }
}

/// Decodes one datagram.
pub fn decode(bytes: &[u8]) -> (r: Result<Record, ParseError>)
    ensures
        r is Ok <==> decoded(bytes@) is Some,
        r matches Ok(rec) ==> decoded(bytes@) == Some(rec@),
{
    let toks = split_tokens(bytes);
    proof {
        assert(toks@.len() == tokens(bytes@).len());
        assert forall|i: int| 0 <= i < toks@.len() implies toks@[i]@ == tokens(bytes@)[i] by {
            assert(views(toks@)[i] == toks@[i]@);
        }
    }
    if toks.len() == 3 && is_tag(&toks[2], TAG_POSITION) {
        let x = Coord::from_text(toks[0].as_slice());
        let y = Coord::from_text(toks[1].as_slice());
        match (x, y) {
            (Some(x), Some(y)) => Ok(Record::Position(Position { x: x.negated(), y: y.negated() })),
            _ => Err(ParseError),
        }
    } else if toks.len() == 1 && is_tag(&toks[0], TAG_ACTION) {
        Ok(Record::Action)
    } else {
        Err(ParseError)
    }
}

/// Appending a word to text that is empty or ends in whitespace appends
/// one token.
pub proof fn lemma_tokens_append_word(a: Seq<u8>, w: Seq<u8>)
    requires
        a.len() == 0 || is_space(a.last()),
        w.len() > 0,
        no_space(w),
    ensures
        tokens(a + w) == tokens(a).push(w),
    decreases w.len(),
{
    let s = a + w;
    if w.len() == 1 {
        assert(s.drop_last() =~= a);
        assert(seq![s.last()] =~= w);
        if a.len() > 0 {
            assert(s[s.len() - 2] == a.last());
        }
    } else {
        let w0 = w.drop_last();
        assert(s.drop_last() =~= a + w0);
        lemma_tokens_append_word(a, w0);
        assert(s[s.len() - 2] == w[w.len() - 2]);
        let prev = tokens(a).push(w0);
        assert(prev.drop_last() =~= tokens(a));
        assert(w0.push(s.last()) =~= w);
    }
}

/// Trailing whitespace adds no token.
pub proof fn lemma_tokens_trailing_space(a: Seq<u8>)
    ensures
        tokens(a + seq![SPACE]) == tokens(a),
{
    assert((a + seq![SPACE]).drop_last() =~= a);
}

/// Decoding the encoding of a position yields the position mirrored
/// through the origin: both coordinates negated.
pub proof fn lemma_round_trip(x: Seq<u8>, y: Seq<u8>)
    requires
        is_number(x),
        is_number(y),
    ensures
        decoded(position_wire(x, y)) == Some(RecordView::Position(negate(x), negate(y))),
{
    lemma_number_is_word(x);
    lemma_number_is_word(y);
    let e = Seq::<u8>::empty();
    let tag = seq![TAG_POSITION];
    assert(no_space(tag));
    lemma_tokens_append_word(e, x);
    assert(e + x =~= x);
    lemma_tokens_trailing_space(x);
    lemma_tokens_append_word(x + seq![SPACE], y);
    lemma_tokens_trailing_space(x + seq![SPACE] + y);
    lemma_tokens_append_word(x + seq![SPACE] + y + seq![SPACE], tag);
    let t = tokens(position_wire(x, y));
    assert(t =~= seq![x, y, tag]);
}

/// The action record always decodes to an action.
pub proof fn lemma_action_round_trip()
    ensures
        decoded(action_wire()) == Some(RecordView::Action),
{
    let e = Seq::<u8>::empty();
    assert(no_space(action_wire()));
    lemma_tokens_append_word(e, action_wire());
    assert(e + action_wire() =~= action_wire());
    assert(tokens(action_wire()) =~= seq![action_wire()]);
}

/// Text whose last token is neither tag never decodes.
pub proof fn lemma_unknown_tag(s: Seq<u8>)
    requires
        tokens(s).len() > 0,
        tokens(s).last() != seq![TAG_POSITION],
        tokens(s).last() != seq![TAG_ACTION],
    ensures
        decoded(s) is None,
{
}

/// A tag with the wrong number of fields before it never decodes: a
/// position needs exactly two, an action none.
pub proof fn lemma_field_count(s: Seq<u8>)
    requires
        tokens(s).len() > 0,
        (tokens(s).last() == seq![TAG_POSITION] && tokens(s).len() != 3) || (tokens(s).last()
            == seq![TAG_ACTION] && tokens(s).len() != 1),
    ensures
        decoded(s) is None,
{
    let t = tokens(s);
    assert(seq![TAG_POSITION][0] != seq![TAG_ACTION][0]);
    if t.len() == 3 {
        assert(t[2] == t.last());
    }
    if t.len() == 1 {
        assert(t[0] == t.last());
    }
}

} // verus!
