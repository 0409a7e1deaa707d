//! Decoding of one log line.
//!
//! A line is `[HH:MM:SS.mmm]`, the source entity in brackets, then optional
//! bracketed target, action and effect segments, an optional parenthesised
//! numeric payload and an optional `<threat>` tail. Bytes are never
//! validated as UTF-8.
use vstd::prelude::*;
use crate::bytes::{
    bytes_eq, contains_bytes, field_i64, find, find_byte, find_bytes, find_word, MINUS, is_digit, occurs, parse_i64, rfind, rfind_byte,
    rtrim, rtrim_len, slice, AT, COLON, DOT, EQUALS, GT, HASH, LBRACE, LBRACKET, LPAREN, LT, PIPE, RBRACE, RBRACKET, RPAREN,
    NINE, SLASH, SPACE, STAR, TILDE, ZERO,
};
use crate::event_models::{CombatEvent, EffectKind, Entity, EntityType, Health, Timestamp};
use crate::interner::{extends, key_in, latin1, lemma_extends_trans, lemma_key_stable, IStr, Interner};

verus! {

pub open spec fn digit_at(b: Seq<u8>, i: int) -> int {
    b[i] - ZERO
}

pub open spec fn ts_shape(b: Seq<u8>) -> bool {
    &&& b.len() >= 14
    &&& b[0] == LBRACKET
    &&& b[3] == COLON
    &&& b[6] == COLON
    &&& b[9] == DOT
    &&& b[13] == RBRACKET
    &&& is_digit(b[1]) && is_digit(b[2]) && is_digit(b[4]) && is_digit(b[5])
    &&& is_digit(b[7]) && is_digit(b[8]) && is_digit(b[10]) && is_digit(b[11])
    &&& is_digit(b[12])
    &&& digit_at(b, 1) * 10 + digit_at(b, 2) < 24
    &&& digit_at(b, 4) < 6
    &&& digit_at(b, 7) < 6
}

/// The timestamp that opens a line.
pub open spec fn ts_spec(b: Seq<u8>) -> Option<Timestamp> {
    if ts_shape(b) {
        Some(
            Timestamp {
                hour: (digit_at(b, 1) * 10 + digit_at(b, 2)) as u8,
                minute: (digit_at(b, 4) * 10 + digit_at(b, 5)) as u8,
                second: (digit_at(b, 7) * 10 + digit_at(b, 8)) as u8,
                millis: (digit_at(b, 10) * 100 + digit_at(b, 11) * 10 + digit_at(b, 12)) as u16,
            },
        )
    } else {
        None
    }
}

fn is_digit_byte(b: u8) -> (r: bool)
    ensures
        r == is_digit(b),
{
    ZERO <= b && b <= NINE
}

/// Reads the fixed-width `[HH:MM:SS.mmm]` prefix and returns what follows it.
pub fn parse_timestamp(input: &[u8]) -> (r: Option<(&[u8], Timestamp)>)
    ensures
        r.is_some() == ts_spec(input@).is_some(),
        r.is_some() ==> {
            &&& r.unwrap().0@ == input@.subrange(14, input@.len() as int)
            &&& r.unwrap().1 == ts_spec(input@).unwrap()
            &&& r.unwrap().1.wf()
        },
{
    let b = input;
    if b.len() < 14 || b[0] != LBRACKET || b[3] != COLON || b[6] != COLON || b[9] != DOT
        || b[13] != RBRACKET {
        return None;
    }
    if !(is_digit_byte(b[1]) && is_digit_byte(b[2]) && is_digit_byte(b[4]) && is_digit_byte(b[5])
        && is_digit_byte(b[7]) && is_digit_byte(b[8]) && is_digit_byte(b[10])
        && is_digit_byte(b[11]) && is_digit_byte(b[12])) {
        return None;
    }
    let hour = (b[1] - ZERO) * 10 + (b[2] - ZERO);
    let minute = (b[4] - ZERO) * 10 + (b[5] - ZERO);
    let second = (b[7] - ZERO) * 10 + (b[8] - ZERO);
    let millis = (b[10] - ZERO) as u16 * 100 + (b[11] - ZERO) as u16 * 10 + (b[12] - ZERO) as u16;
    if hour >= 24 || b[4] - ZERO >= 6 || b[7] - ZERO >= 6 {
        return None;
    }
    Some((slice(input, 14, input.len()), Timestamp { hour, minute, second, millis }))
}

/// A bracketed segment ` [content]` at the start of `r`: its content and
/// what follows the closing bracket.
pub open spec fn bracket_spec(r: Seq<u8>) -> Option<(Seq<u8>, Seq<u8>)> {
    if r.len() >= 2 && r[0] == SPACE && r[1] == LBRACKET {
        let inner = r.subrange(2, r.len() as int);
        match find(inner, RBRACKET) {
            Some(k) => Some((inner.subrange(0, k), inner.subrange(k + 1, inner.len() as int))),
            None => None,
        }
    } else {
        None
    }
}

/// Splits off the bracketed segment that starts `r`.
pub fn bracket_segment(r: &[u8]) -> (res: Option<(&[u8], &[u8])>)
    ensures
        res.is_some() == bracket_spec(r@).is_some(),
        res.is_some() ==> (res.unwrap().0@, res.unwrap().1@) == bracket_spec(r@).unwrap(),
{
    if r.len() < 2 || r[0] != SPACE || r[1] != LBRACKET {
        return None;
    }
    let inner = slice(r, 2, r.len());
    match find_byte(RBRACKET, inner) {
        Some(k) => Some((slice(inner, 0, k), slice(inner, k + 1, inner.len()))),
        None => None,
    }
}

/// An optional bracketed segment: `None` when `r` opens one that is never
/// closed; otherwise its content (absent when `r` opens none) and the rest.
pub open spec fn opt_segment_spec(r: Seq<u8>) -> Option<(Option<Seq<u8>>, Seq<u8>)> {
    if r.len() >= 2 && r[0] == SPACE && r[1] == LBRACKET {
        match bracket_spec(r) {
            Some((c, rest)) => Some((Some(c), rest)),
            None => None,
        }
    } else {
        Some((None, r))
    }
}

pub fn opt_segment(r: &[u8]) -> (res: Option<(Option<&[u8]>, &[u8])>)
    ensures
        res.is_some() == opt_segment_spec(r@).is_some(),
        res.is_some() ==> (opt_view(res.unwrap().0), res.unwrap().1@) == opt_segment_spec(r@).unwrap(),
{
    if r.len() >= 2 && r[0] == SPACE && r[1] == LBRACKET {
        match bracket_segment(r) {
            Some((c, rest)) => Some((Some(c), rest)),
            None => None,
        }
    } else {
        Some((None, r))
    }
}

pub open spec fn opt_view(o: Option<&[u8]>) -> Option<Seq<u8>> {
    match o {
        Some(s) => Some(s@),
        None => None,
    }
}

/// The part of `s` after the `}:` that closes an id pair at `close`, or
/// nothing when no `:` follows.
pub open spec fn after_ids(s: Seq<u8>, close: int) -> Seq<u8> {
    if close + 1 < s.len() && s[close + 1] == COLON {
        s.subrange(close + 2, s.len() as int)
    } else {
        Seq::empty()
    }
}

/// `name {class_id}:log_id`, where the name starts at `start` and is
/// followed by ` {`; a missing or blank name is malformed.
pub open spec fn ids_spec(s: Seq<u8>, start: int, kind: EntityType) -> Option<(Seq<u8>, i64, i64, EntityType)> {
    match find(s, LBRACE) {
        Some(o) => match find(s, RBRACE) {
            Some(c) => if start < o && o < c && s[o - 1] == SPACE && rtrim(s.subrange(start, o)).len() > 0 {
                Some((
                    rtrim(s.subrange(start, o)),
                    field_i64(s.subrange(o + 1, c)),
                    field_i64(after_ids(s, c)),
                    kind,
                ))
            } else {
                None
            },
            None => None,
        },
        None => None,
    }
}

/// The identity part of an entity segment: its name, class id, log id and
/// kind. `@name#id` is a player, `@owner#id/name {class}:id` a companion and
/// `name {class}:id` a non-player combatant. A name is required; an id that
/// is no number reads as 0.
pub open spec fn name_id_spec(s: Seq<u8>) -> Option<(Seq<u8>, i64, i64, EntityType)> {
    if s.len() > 0 && s[0] == AT {
        match find(s, SLASH) {
            Some(sl) => ids_spec(s, sl + 1, EntityType::Companion),
            None => match find(s, HASH) {
                Some(h) => if h > 1 {
                    Some((s.subrange(1, h), 0, field_i64(s.subrange(h + 1, s.len() as int)), EntityType::Player))
                } else {
                    None
                },
                None => None,
            },
        }
    } else {
        ids_spec(s, 0, EntityType::Npc)
    }
}

fn parse_ids(input: &[u8], start: usize, kind: EntityType) -> (r: Option<(&[u8], i64, i64, EntityType)>)
    requires
        start <= input@.len(),
    ensures
        r.is_some() == ids_spec(input@, start as int, kind).is_some(),
        r.is_some() ==> (r.unwrap().0@, r.unwrap().1, r.unwrap().2, r.unwrap().3) == ids_spec(input@, start as int, kind).unwrap(),
{
    let open = match find_byte(LBRACE, input) {
        Some(o) => o,
        None => return None,
    };
    let close = match find_byte(RBRACE, input) {
        Some(c) => c,
        None => return None,
    };
    if !(start < open && open < close && input[open - 1] == SPACE) {
        return None;
    }
    let raw_name = slice(input, start, open);
    let name = slice(raw_name, 0, rtrim_len(raw_name));
    if name.len() == 0 {
        return None;
    }
    let class_id = parse_i64(slice(input, open + 1, close));
    assert(close < input.len());
    let log_id = if close + 1 < input.len() && input[close + 1] == COLON {
        parse_i64(slice(input, close + 2, input.len()))
    } else {
        proof {
            assert(Seq::<u8>::empty() =~= after_ids(input@, close as int));
        }
        parse_i64(slice(input, 0, 0))
    };
    Some((name, class_id, log_id, kind))
}

/// Reads the identity part of an entity segment (see `name_id_spec`).
pub fn parse_entity_name_id(input: &[u8]) -> (r: Option<(&[u8], i64, i64, EntityType)>)
    ensures
        r.is_some() == name_id_spec(input@).is_some(),
        r.is_some() ==> (r.unwrap().0@, r.unwrap().1, r.unwrap().2, r.unwrap().3) == name_id_spec(input@).unwrap(),
{
    if input.len() > 0 && input[0] == AT {
        match find_byte(SLASH, input) {
            Some(sl) => parse_ids(input, sl + 1, EntityType::Companion),
            None => match find_byte(HASH, input) {
                Some(h) => {
                    let log_id = parse_i64(slice(input, h + 1, input.len()));
                    if h > 1 {
                        Some((slice(input, 1, h), 0, log_id, EntityType::Player))
                    } else {
                        None
                    }
                },
                None => None,
            },
        }
    } else {
        parse_ids(input, 0, EntityType::Npc)
    }
}

/// An entity as read from its segment, with names still as bytes.
pub struct RawEntity {
    pub name: Option<Seq<u8>>,
    pub class_id: i64,
    pub log_id: i64,
    pub kind: EntityType,
    pub coordinates: Option<Seq<u8>>,
    pub health: Option<Health>,
}

pub open spec fn raw_empty() -> RawEntity {
    RawEntity { name: None, class_id: 0, log_id: 0, kind: EntityType::Empty, coordinates: None, health: None }
}

/// `(current/max)`.
pub open spec fn health_spec(h: Seq<u8>) -> Option<Health> {
    if h.len() >= 2 && h[0] == LPAREN && h.last() == RPAREN {
        let inner = h.subrange(1, h.len() - 1);
        match find(inner, SLASH) {
            Some(k) => Some(Health {
                current: field_i64(inner.subrange(0, k)),
                max: field_i64(inner.subrange(k + 1, inner.len() as int)),
            }),
            None => None,
        }
    } else {
        None
    }
}

/// What follows the identity, after its first `|`: `coordinates|(health)`.
pub open spec fn extras_spec(e: Seq<u8>) -> (Option<Seq<u8>>, Option<Health>) {
    match find(e, PIPE) {
        Some(j) => (Some(e.subrange(0, j)), health_spec(e.subrange(j + 1, e.len() as int))),
        None => (Some(e), None),
    }
}

/// The content of an entity segment. `Some(None)` is the `=` sentinel, which
/// names no entity; the empty content is the empty entity.
pub open spec fn entity_spec(c: Seq<u8>) -> Option<Option<RawEntity>> {
    if c.len() == 0 {
        Some(Some(raw_empty()))
    } else if c.len() == 1 && c[0] == EQUALS {
        Some(None)
    } else {
        let (ident, extras) = match find(c, PIPE) {
            Some(i) => (c.subrange(0, i), Some(c.subrange(i + 1, c.len() as int))),
            None => (c, None),
        };
        let (coordinates, health) = match extras {
            Some(e) => extras_spec(e),
            None => (None, None),
        };
        match name_id_spec(ident) {
            Some((name, class_id, log_id, kind)) => Some(Some(RawEntity {
                name: Some(name), class_id, log_id, kind, coordinates, health,
            })),
            None => None,
        }
    }
}

/// An entity as read from its segment, borrowing its names from the line.
pub struct EntityParts<'a> {
    pub name: Option<&'a [u8]>,
    pub class_id: i64,
    pub log_id: i64,
    pub kind: EntityType,
    pub coordinates: Option<&'a [u8]>,
    pub health: Option<Health>,
}

impl<'a> View for EntityParts<'a> {
    type V = RawEntity;

    open spec fn view(&self) -> RawEntity {
        RawEntity {
            name: opt_view(self.name),
            class_id: self.class_id,
            log_id: self.log_id,
            kind: self.kind,
            coordinates: opt_view(self.coordinates),
            health: self.health,
        }
    }
}

fn parse_health(h: &[u8]) -> (r: Option<Health>)
    ensures
        r == health_spec(h@),
{
    if h.len() >= 2 && h[0] == LPAREN && h[h.len() - 1] == RPAREN {
        let inner = slice(h, 1, h.len() - 1);
        match find_byte(SLASH, inner) {
            Some(k) => Some(Health {
                current: parse_i64(slice(inner, 0, k)),
                max: parse_i64(slice(inner, k + 1, inner.len())),
            }),
            None => None,
        }
    } else {
        None
    }
}

fn parse_extras(e: &[u8]) -> (r: (Option<&[u8]>, Option<Health>))
    ensures
        (opt_view(r.0), r.1) == extras_spec(e@),
{
    match find_byte(PIPE, e) {
        Some(j) => {
            assert(j < e.len());
            (Some(slice(e, 0, j)), parse_health(slice(e, j + 1, e.len())))
        },
        None => (Some(e), None),
    }
}

/// Reads the content of an entity segment (see `entity_spec`).
pub fn parse_entity_content(c: &[u8]) -> (r: Option<Option<EntityParts<'_>>>)
    ensures
        r.is_some() == entity_spec(c@).is_some(),
        r.is_some() ==> r.unwrap().is_some() == entity_spec(c@).unwrap().is_some(),
        r.is_some() && r.unwrap().is_some() ==> r.unwrap().unwrap()@ == entity_spec(c@).unwrap().unwrap(),
{
    if c.len() == 0 {
        return Some(Some(EntityParts {
            name: None, class_id: 0, log_id: 0, kind: EntityType::Empty, coordinates: None, health: None,
        }));
    }
    if c.len() == 1 && c[0] == EQUALS {
        return Some(None);
    }
    let (ident, coordinates, health) = match find_byte(PIPE, c) {
        Some(i) => {
            let (coordinates, health) = parse_extras(slice(c, i + 1, c.len()));
            (slice(c, 0, i), coordinates, health)
        },
        None => {
            proof {
                assert(c@.subrange(0, c@.len() as int) =~= c@);
            }
            (c, None, None)
        },
    };
    match parse_entity_name_id(ident) {
        Some((name, class_id, log_id, kind)) => Some(Some(EntityParts {
            name: Some(name), class_id, log_id, kind, coordinates, health,
        })),
        None => None,
    }
}

/// An entity segment ` [..]` at the start of `input`: the entity (absent for
/// the `=` sentinel) and what follows the segment.
pub open spec fn entity_segment_spec(input: Seq<u8>) -> Option<(Seq<u8>, Option<RawEntity>)> {
    match bracket_spec(input) {
        Some((c, rest)) => match entity_spec(c) {
            Some(e) => Some((rest, e)),
            None => None,
        },
        None => None,
    }
}

pub open spec fn opt_parts_view(o: Option<EntityParts>) -> Option<RawEntity> {
    match o {
        Some(p) => Some(p@),
        None => None,
    }
}

/// Reads the entity segment that starts `input` and returns what follows it.
pub fn parse_entity(input: &[u8]) -> (r: Option<(&[u8], Option<EntityParts<'_>>)>)
    ensures
        r.is_some() == entity_segment_spec(input@).is_some(),
        r.is_some() ==> (r.unwrap().0@, opt_parts_view(r.unwrap().1)) == entity_segment_spec(input@).unwrap(),
{
    match bracket_segment(input) {
        Some((c, rest)) => match parse_entity_content(c) {
            Some(e) => Some((rest, e)),
            None => None,
        },
        None => None,
    }
}

/// `name {id}` filling a whole segment.
pub open spec fn id_pair_spec(c: Seq<u8>) -> Option<(Seq<u8>, i64)> {
    match find(c, LBRACE) {
        Some(o) => match find(c, RBRACE) {
            Some(cl) => if o < cl && cl + 1 == c.len() {
                Some((rtrim(c.subrange(0, o)), field_i64(c.subrange(o + 1, cl))))
            } else {
                None
            },
            None => None,
        },
        None => None,
    }
}

pub fn parse_id_pair(c: &[u8]) -> (r: Option<(&[u8], i64)>)
    ensures
        r.is_some() == id_pair_spec(c@).is_some(),
        r.is_some() ==> (r.unwrap().0@, r.unwrap().1) == id_pair_spec(c@).unwrap(),
{
    let o = match find_byte(LBRACE, c) {
        Some(o) => o,
        None => return None,
    };
    let cl = match find_byte(RBRACE, c) {
        Some(cl) => cl,
        None => return None,
    };
    assert(cl < c.len());
    if !(o < cl && cl + 1 == c.len()) {
        return None;
    }
    let raw_name = slice(c, 0, o);
    Some((slice(raw_name, 0, rtrim_len(raw_name)), parse_i64(slice(c, o + 1, cl))))
}

/// The action segment: empty, or one id pair.
pub open spec fn action_spec(c: Seq<u8>) -> Option<Option<(Seq<u8>, i64)>> {
    if c.len() == 0 {
        Some(None)
    } else {
        match id_pair_spec(c) {
            Some(p) => Some(Some(p)),
            None => None,
        }
    }
}

/// The effect segment: empty, or `type {id}: effect {id}`.
pub open spec fn effect_spec(c: Seq<u8>) -> Option<Option<(Seq<u8>, i64, Seq<u8>, i64)>> {
    if c.len() == 0 {
        Some(None)
    } else {
        match find(c, RBRACE) {
            Some(k) => if k + 2 < c.len() && c[k + 1] == COLON && c[k + 2] == SPACE {
                match id_pair_spec(c.subrange(0, k + 1)) {
                    Some((tn, tid)) => match id_pair_spec(c.subrange(k + 3, c.len() as int)) {
                        Some((en, eid)) => Some(Some((tn, tid, en, eid))),
                        None => None,
                    },
                    None => None,
                }
            } else {
                None
            },
            None => None,
        }
    }
}

pub struct EffectParts<'a> {
    pub kind_name: &'a [u8],
    pub kind_id: i64,
    pub name: &'a [u8],
    pub id: i64,
}

pub open spec fn opt_effect_view(o: Option<EffectParts>) -> Option<(Seq<u8>, i64, Seq<u8>, i64)> {
    match o {
        Some(e) => Some((e.kind_name@, e.kind_id, e.name@, e.id)),
        None => None,
    }
}

pub open spec fn opt_pair_view(o: Option<(&[u8], i64)>) -> Option<(Seq<u8>, i64)> {
    match o {
        Some(p) => Some((p.0@, p.1)),
        None => None,
    }
}

fn parse_effect(c: &[u8]) -> (r: Option<Option<EffectParts<'_>>>)
    ensures
        r.is_some() == effect_spec(c@).is_some(),
        r.is_some() ==> opt_effect_view(r.unwrap()) == effect_spec(c@).unwrap(),
{
    if c.len() == 0 {
        return Some(None);
    }
    let k = match find_byte(RBRACE, c) {
        Some(k) => k,
        None => return None,
    };
    assert(k < c.len());
    if !(c.len() - k > 2 && c[k + 1] == COLON && c[k + 2] == SPACE) {
        return None;
    }
    match parse_id_pair(slice(c, 0, k + 1)) {
        Some((kind_name, kind_id)) => match parse_id_pair(slice(c, k + 3, c.len())) {
            Some((name, id)) => Some(Some(EffectParts { kind_name, kind_id, name, id })),
            None => None,
        },
        None => None,
    }
}

/// The numeric payload: an amount, critical when it ends in `*`, an
/// effective amount when a `~` token follows, whether the hit was reflected,
/// and the id of its damage type (the first `{id}` of the payload).
#[derive(Clone, Copy, Debug, PartialEq, Eq, Structural)]
pub struct Payload {
    pub amount: i64,
    pub critical: bool,
    pub effective: Option<i64>,
    pub reflected: bool,
    pub type_id: Option<i64>,
    /// The id after the ` -` that names the mitigating effect.
    pub reduction_class_id: Option<i64>,
    /// The amount before `absorbed`, after its opening `(`.
    pub damage_reduced: Option<i64>,
    /// The id that follows `absorbed`.
    pub reduction_type_id: Option<i64>,
}

/// `absorbed`
pub open spec fn word_absorbed() -> Seq<u8> {
    seq![97u8, 98, 115, 111, 114, 98, 101, 100]
}

/// ` -`
pub open spec fn word_reduction() -> Seq<u8> {
    seq![SPACE, MINUS]
}

pub open spec fn reduction_class_spec(p: Seq<u8>) -> Option<i64> {
    match find_word(p, word_reduction()) {
        Some(i) => braced_id(p.subrange(i + 2, p.len() as int)),
        None => None,
    }
}

/// The absorbed amount and its type id.
pub open spec fn absorbed_spec(p: Seq<u8>) -> (Option<i64>, Option<i64>) {
    match find_word(p, word_absorbed()) {
        Some(i) => {
            let q = p.subrange(0, i);
            let amount = match rfind(q, LPAREN) {
                Some(k) => Some(field_i64(rtrim(q.subrange(k + 1, i)))),
                None => None,
            };
            (amount, braced_id(p.subrange(i, p.len() as int)))
        },
        None => (None, None),
    }
}

fn parse_reduction_class(p: &[u8]) -> (r: Option<i64>)
    ensures
        r == reduction_class_spec(p@),
{
    let word: [u8; 2] = [SPACE, MINUS];
    let word = vstd::array::array_as_slice(&word);
    assert(word@ =~= word_reduction());
    match find_bytes(p, word) {
        Some(i) => {
            let n = p.len();
            assert(i + 2 <= n);
            parse_braced_id(slice(p, i + 2, n))
        },
        None => None,
    }
}

fn parse_absorbed(p: &[u8]) -> (r: (Option<i64>, Option<i64>))
    ensures
        r == absorbed_spec(p@),
{
    let word: [u8; 8] = [97, 98, 115, 111, 114, 98, 101, 100];
    let word = vstd::array::array_as_slice(&word);
    assert(word@ =~= word_absorbed());
    match find_bytes(p, word) {
        Some(i) => {
            let q = slice(p, 0, i);
            let amount = match rfind_byte(LPAREN, q) {
                Some(k) => {
                    let raw = slice(q, k + 1, i);
                    Some(parse_i64(slice(raw, 0, rtrim_len(raw))))
                },
                None => None,
            };
            (amount, parse_braced_id(slice(p, i, p.len())))
        },
        None => (None, None),
    }
}

/// `reflected`
pub open spec fn word_reflected() -> Seq<u8> {
    seq![114u8, 101, 102, 108, 101, 99, 116, 101, 100]
}

/// The id between the first `{` and the first `}` of `p`, if in that order.
pub open spec fn braced_id(p: Seq<u8>) -> Option<i64> {
    match find(p, LBRACE) {
        Some(o) => match find(p, RBRACE) {
            Some(c) => if o < c { Some(field_i64(p.subrange(o + 1, c))) } else { None },
            None => None,
        },
        None => None,
    }
}

fn parse_braced_id(p: &[u8]) -> (r: Option<i64>)
    ensures
        r == braced_id(p@),
{
    match find_byte(LBRACE, p) {
        Some(o) => match find_byte(RBRACE, p) {
            Some(c) => if o < c { Some(parse_i64(slice(p, o + 1, c))) } else { None },
            None => None,
        },
        None => None,
    }
}

pub open spec fn first_token(s: Seq<u8>) -> Seq<u8> {
    match find(s, SPACE) {
        Some(i) => s.subrange(0, i),
        None => s,
    }
}

/// An effective amount never exceeds the amount it is part of.
pub open spec fn payload_spec(p: Seq<u8>) -> Payload {
    let tok = first_token(p);
    let critical = tok.len() > 0 && tok.last() == STAR;
    let digits = if critical { tok.drop_last() } else { tok };
    let effective = match find(p, SPACE) {
        Some(i) => {
            let r = p.subrange(i + 1, p.len() as int);
            if r.len() > 0 && r[0] == TILDE {
                let e = field_i64(first_token(r.subrange(1, r.len() as int)));
                let amount = field_i64(digits);
                Some(if e <= amount { e } else { amount })
            } else {
                None
            }
        },
        None => None,
    };
    Payload {
        amount: field_i64(digits),
        critical,
        effective,
        reflected: occurs(p, word_reflected()),
        type_id: braced_id(p),
        reduction_class_id: reduction_class_spec(p),
        damage_reduced: absorbed_spec(p).0,
        reduction_type_id: absorbed_spec(p).1,
    }
}

fn first_token_len(s: &[u8]) -> (n: usize)
    ensures
        n <= s@.len(),
        s@.subrange(0, n as int) == first_token(s@),
{
    match find_byte(SPACE, s) {
        Some(i) => i,
        None => {
            assert(s@.subrange(0, s@.len() as int) =~= s@);
            s.len()
        },
    }
}

pub fn parse_payload(p: &[u8]) -> (r: Payload)
    ensures
        r == payload_spec(p@),
{
    let tok = slice(p, 0, first_token_len(p));
    let critical = tok.len() > 0 && tok[tok.len() - 1] == STAR;
    let digits = if critical {
        slice(tok, 0, tok.len() - 1)
    } else {
        proof {
            assert(tok@.subrange(0, tok@.len() as int) =~= tok@);
        }
        slice(tok, 0, tok.len())
    };
    let effective = match find_byte(SPACE, p) {
        Some(i) => {
            assert(i < p.len());
            let r = slice(p, i + 1, p.len());
            if r.len() > 0 && r[0] == TILDE {
                let r1 = slice(r, 1, r.len());
                let e = parse_i64(slice(r1, 0, first_token_len(r1)));
                let amount = parse_i64(digits);
                Some(if e <= amount { e } else { amount })
            } else {
                None
            }
        },
        None => None,
    };
    let absorbed = parse_absorbed(p);
    let word: [u8; 9] = [114, 101, 102, 108, 101, 99, 116, 101, 100];
    let word = vstd::array::array_as_slice(&word);
    assert(word@ =~= word_reflected());
    Payload {
        amount: parse_i64(digits),
        critical,
        effective,
        reflected: contains_bytes(p, word),
        type_id: parse_braced_id(p),
        reduction_class_id: parse_reduction_class(p),
        damage_reduced: absorbed.0,
        reduction_type_id: absorbed.1,
    }
}

/// A parenthesised payload ` (..)`, closed by the last `)` of `r`.
pub open spec fn opt_payload_spec(r: Seq<u8>) -> Option<(Option<Seq<u8>>, Seq<u8>)> {
    if r.len() >= 2 && r[0] == SPACE && r[1] == LPAREN {
        match rfind(r, RPAREN) {
            Some(k) => Some((Some(r.subrange(2, k)), r.subrange(k + 1, r.len() as int))),
            None => None,
        }
    } else {
        Some((None, r))
    }
}

fn opt_payload(r: &[u8]) -> (res: Option<(Option<&[u8]>, &[u8])>)
    ensures
        res.is_some() == opt_payload_spec(r@).is_some(),
        res.is_some() ==> (opt_view(res.unwrap().0), res.unwrap().1@) == opt_payload_spec(r@).unwrap(),
{
    if r.len() >= 2 && r[0] == SPACE && r[1] == LPAREN {
        match rfind_byte(RPAREN, r) {
            Some(k) => {
                assert(k >= 2);
                Some((Some(slice(r, 2, k)), slice(r, k + 1, r.len())))
            },
            None => None,
        }
    } else {
        Some((None, r))
    }
}

/// A threat tail ` <value>`; the value's fraction is dropped.
pub open spec fn opt_threat_spec(r: Seq<u8>) -> Option<(Option<i64>, Seq<u8>)> {
    if r.len() >= 2 && r[0] == SPACE && r[1] == LT {
        match find(r, GT) {
            Some(k) => {
                let t = r.subrange(2, k);
                let whole = match find(t, DOT) {
                    Some(d) => t.subrange(0, d),
                    None => t,
                };
                Some((Some(field_i64(whole)), r.subrange(k + 1, r.len() as int)))
            },
            None => None,
        }
    } else {
        Some((None, r))
    }
}

fn opt_threat(r: &[u8]) -> (res: Option<(Option<i64>, &[u8])>)
    ensures
        res.is_some() == opt_threat_spec(r@).is_some(),
        res.is_some() ==> (res.unwrap().0, res.unwrap().1@) == opt_threat_spec(r@).unwrap(),
{
    if r.len() >= 2 && r[0] == SPACE && r[1] == LT {
        match find_byte(GT, r) {
            Some(k) => {
                assert(k >= 2);
                let t = slice(r, 2, k);
                let whole = match find_byte(DOT, t) {
                    Some(d) => slice(t, 0, d),
                    None => {
                        assert(t@.subrange(0, t@.len() as int) =~= t@);
                        slice(t, 0, t.len())
                    },
                };
                Some((Some(parse_i64(whole)), slice(r, k + 1, r.len())))
            },
            None => None,
        }
    } else {
        Some((None, r))
    }
}

pub open spec fn word_enter_combat() -> Seq<u8> {
    seq![69u8, 110, 116, 101, 114, 67, 111, 109, 98, 97, 116]
}

pub open spec fn word_exit_combat() -> Seq<u8> {
    seq![69u8, 120, 105, 116, 67, 111, 109, 98, 97, 116]
}

pub open spec fn word_area_entered() -> Seq<u8> {
    seq![65u8, 114, 101, 97, 69, 110, 116, 101, 114, 101, 100]
}

pub open spec fn word_phase_start() -> Seq<u8> {
    seq![80u8, 104, 97, 115, 101, 83, 116, 97, 114, 116]
}

pub open spec fn word_damage() -> Seq<u8> {
    seq![68u8, 97, 109, 97, 103, 101]
}

pub open spec fn word_heal() -> Seq<u8> {
    seq![72u8, 101, 97, 108]
}

/// The kind that one name denotes.
pub open spec fn kind_of_name(n: Seq<u8>) -> EffectKind {
    if n == word_enter_combat() {
        EffectKind::EnterCombat
    } else if n == word_exit_combat() {
        EffectKind::ExitCombat
    } else if n == word_area_entered() {
        EffectKind::AreaEntered
    } else if n == word_phase_start() {
        EffectKind::PhaseStart
    } else if n == word_damage() {
        EffectKind::Damage
    } else if n == word_heal() {
        EffectKind::Heal
    } else {
        EffectKind::Other
    }
}

/// The kind of an event: its effect-type name decides, and when that names
/// no kind (a generic type such as an event or an applied effect), the
/// effect name does.
pub open spec fn kind_spec(effect: Option<(Seq<u8>, i64, Seq<u8>, i64)>) -> EffectKind {
    match effect {
        Some((tn, _, en, _)) => if kind_of_name(tn) == EffectKind::Other {
            kind_of_name(en)
        } else {
            kind_of_name(tn)
        },
        None => EffectKind::Other,
    }
}

fn kind_of_word(n: &[u8]) -> (r: EffectKind)
    ensures
        r == kind_of_name(n@),
{
    let enter: [u8; 11] = [69, 110, 116, 101, 114, 67, 111, 109, 98, 97, 116];
    let exit: [u8; 10] = [69, 120, 105, 116, 67, 111, 109, 98, 97, 116];
    let area: [u8; 11] = [65, 114, 101, 97, 69, 110, 116, 101, 114, 101, 100];
    let phase: [u8; 10] = [80, 104, 97, 115, 101, 83, 116, 97, 114, 116];
    let damage: [u8; 6] = [68, 97, 109, 97, 103, 101];
    let heal: [u8; 4] = [72, 101, 97, 108];
    let enter = vstd::array::array_as_slice(&enter);
    let exit = vstd::array::array_as_slice(&exit);
    let area = vstd::array::array_as_slice(&area);
    let phase = vstd::array::array_as_slice(&phase);
    let damage = vstd::array::array_as_slice(&damage);
    let heal = vstd::array::array_as_slice(&heal);
    assert(enter@ =~= word_enter_combat());
    assert(exit@ =~= word_exit_combat());
    assert(area@ =~= word_area_entered());
    assert(phase@ =~= word_phase_start());
    assert(damage@ =~= word_damage());
    assert(heal@ =~= word_heal());
    if bytes_eq(n, enter) {
        EffectKind::EnterCombat
    } else if bytes_eq(n, exit) {
        EffectKind::ExitCombat
    } else if bytes_eq(n, area) {
        EffectKind::AreaEntered
    } else if bytes_eq(n, phase) {
        EffectKind::PhaseStart
    } else if bytes_eq(n, damage) {
        EffectKind::Damage
    } else if bytes_eq(n, heal) {
        EffectKind::Heal
    } else {
        EffectKind::Other
    }
}

fn effect_kind_of(effect: &Option<EffectParts>) -> (r: EffectKind)
    ensures
        r == kind_spec(opt_effect_view(*effect)),
{
    match effect {
        Some(e) => {
            let k = kind_of_word(e.kind_name);
            if k == EffectKind::Other {
                kind_of_word(e.name)
            } else {
                k
            }
        },
        None => EffectKind::Other,
    }
}

/// A line as read, before its names are interned.
pub struct RawEvent {
    pub timestamp: Timestamp,
    pub source: RawEntity,
    pub target: Option<RawEntity>,
    pub action: Option<(Seq<u8>, i64)>,
    pub effect: Option<(Seq<u8>, i64, Seq<u8>, i64)>,
    pub payload: Option<Payload>,
    pub threat: Option<i64>,
}

/// The segments after the source entity.
pub struct RawTail {
    pub target: Option<RawEntity>,
    pub action: Option<(Seq<u8>, i64)>,
    pub effect: Option<(Seq<u8>, i64, Seq<u8>, i64)>,
    pub payload: Option<Payload>,
    pub threat: Option<i64>,
}

/// An optional segment's content read by `f`; an absent segment reads as
/// nothing.
pub open spec fn opt_content<T>(c: Option<Seq<u8>>, f: spec_fn(Seq<u8>) -> Option<Option<T>>) -> Option<Option<T>> {
    match c {
        Some(c) => f(c),
        None => Some(None),
    }
}

pub open spec fn tail_spec(r1: Seq<u8>) -> Option<RawTail> {
    match opt_segment_spec(r1) {
        Some((tc, r2)) => match opt_segment_spec(r2) {
            Some((ac, r3)) => match opt_segment_spec(r3) {
                Some((ec, r4)) => match opt_payload_spec(r4) {
                    Some((pc, r5)) => match opt_threat_spec(r5) {
                        Some((threat, r6)) => {
                            let target = opt_content(tc, |c: Seq<u8>| entity_spec(c));
                            let action = opt_content(ac, |c: Seq<u8>| action_spec(c));
                            let effect = opt_content(ec, |c: Seq<u8>| effect_spec(c));
                            if r6.len() == 0 && target.is_some() && action.is_some() && effect.is_some() {
                                Some(RawTail {
                                    target: target.unwrap(),
                                    action: action.unwrap(),
                                    effect: effect.unwrap(),
                                    payload: match pc {
                                        Some(p) => Some(payload_spec(p)),
                                        None => None,
                                    },
                                    threat,
                                })
                            } else {
                                None
                            }
                        },
                        None => None,
                    },
                    None => None,
                },
                None => None,
            },
            None => None,
        },
        None => None,
    }
}

/// A whole line: `None` when its structure is malformed.
#[verifier::opaque]
pub open spec fn raw_line_spec(l: Seq<u8>) -> Option<RawEvent> {
    match ts_spec(l) {
        Some(ts) => match entity_segment_spec(l.subrange(14, l.len() as int)) {
            Some((r1, src)) => match tail_spec(r1) {
                Some(t) => Some(RawEvent {
                    timestamp: ts,
                    source: match src {
                        Some(e) => e,
                        None => raw_empty(),
                    },
                    target: t.target,
                    action: t.action,
                    effect: t.effect,
                    payload: t.payload,
                    threat: t.threat,
                }),
                None => None,
            },
            None => None,
        },
        None => None,
    }
}

/// A line as read, borrowing its names from the line.
pub struct LineParts<'a> {
    pub timestamp: Timestamp,
    pub source: EntityParts<'a>,
    pub target: Option<EntityParts<'a>>,
    pub action: Option<(&'a [u8], i64)>,
    pub effect: Option<EffectParts<'a>>,
    pub payload: Option<Payload>,
    pub threat: Option<i64>,
}

impl<'a> View for LineParts<'a> {
    type V = RawEvent;

    open spec fn view(&self) -> RawEvent {
        RawEvent {
            timestamp: self.timestamp,
            source: self.source@,
            target: opt_parts_view(self.target),
            action: opt_pair_view(self.action),
            effect: opt_effect_view(self.effect),
            payload: self.payload,
            threat: self.threat,
        }
    }
}

fn parse_action(c: &[u8]) -> (r: Option<Option<(&[u8], i64)>>)
    ensures
        r.is_some() == action_spec(c@).is_some(),
        r.is_some() ==> opt_pair_view(r.unwrap()) == action_spec(c@).unwrap(),
{
    if c.len() == 0 {
        return Some(None);
    }
    match parse_id_pair(c) {
        Some(p) => Some(Some(p)),
        None => None,
    }
}

fn parse_tail(r1: &[u8]) -> (r: Option<(Option<EntityParts<'_>>, Option<(&[u8], i64)>, Option<EffectParts<'_>>, Option<Payload>, Option<i64>)>)
    ensures
        r.is_some() == tail_spec(r1@).is_some(),
        r.is_some() ==> ({
            let (target, action, effect, payload, threat) = r.unwrap();
            let t = tail_spec(r1@).unwrap();
            &&& opt_parts_view(target) == t.target
            &&& opt_pair_view(action) == t.action
            &&& opt_effect_view(effect) == t.effect
            &&& payload == t.payload
            &&& threat == t.threat
        }),
{
    let (tc, r2) = match opt_segment(r1) {
        Some(x) => x,
        None => return None,
    };
    let (ac, r3) = match opt_segment(r2) {
        Some(x) => x,
        None => return None,
    };
    let (ec, r4) = match opt_segment(r3) {
        Some(x) => x,
        None => return None,
    };
    let (pc, r5) = match opt_payload(r4) {
        Some(x) => x,
        None => return None,
    };
    let (threat, r6) = match opt_threat(r5) {
        Some(x) => x,
        None => return None,
    };
    if r6.len() != 0 {
        return None;
    }
    let target = match tc {
        Some(c) => match parse_entity_content(c) {
            Some(t) => t,
            None => return None,
        },
        None => None,
    };
    let action = match ac {
        Some(c) => match parse_action(c) {
            Some(a) => a,
            None => return None,
        },
        None => None,
    };
    let effect = match ec {
        Some(c) => match parse_effect(c) {
            Some(e) => e,
            None => return None,
        },
        None => None,
    };
    let payload = match pc {
        Some(p) => Some(parse_payload(p)),
        None => None,
    };
    Some((target, action, effect, payload, threat))
}

/// Reads the structure of a line, leaving its names as bytes.
pub fn parse_line_parts(line: &[u8]) -> (r: Option<LineParts<'_>>)
    ensures
        r.is_some() == raw_line_spec(line@).is_some(),
        r.is_some() ==> r.unwrap()@ == raw_line_spec(line@).unwrap(),
{
    reveal(raw_line_spec);
    let (r0, timestamp) = match parse_timestamp(line) {
        Some(x) => x,
        None => return None,
    };
    let (r1, src) = match parse_entity(r0) {
        Some(x) => x,
        None => return None,
    };
    let (target, action, effect, payload, threat) = match parse_tail(r1) {
        Some(x) => x,
        None => return None,
    };
    let source = match src {
        Some(e) => e,
        None => EntityParts {
            name: None, class_id: 0, log_id: 0, kind: EntityType::Empty, coordinates: None, health: None,
        },
    };
    Some(LineParts { timestamp, source, target, action, effect, payload, threat })
}

pub open spec fn opt_key(o: Option<Seq<u8>>, names: Seq<Seq<char>>) -> Option<IStr> {
    match o {
        Some(x) => Some(key_in(names, latin1(x))),
        None => None,
    }
}

pub open spec fn opt_known(o: Option<Seq<u8>>, names: Seq<Seq<char>>) -> bool {
    match o {
        Some(x) => names.contains(latin1(x)),
        None => true,
    }
}

pub open spec fn entity_of(e: RawEntity, names: Seq<Seq<char>>) -> Entity {
    Entity {
        name: opt_key(e.name, names),
        class_id: e.class_id,
        log_id: e.log_id,
        entity_type: e.kind,
        coordinates: opt_key(e.coordinates, names),
        health: e.health,
    }
}

pub open spec fn entity_known(e: RawEntity, names: Seq<Seq<char>>) -> bool {
    opt_known(e.name, names) && opt_known(e.coordinates, names)
}

pub open spec fn opt_entity_of(e: Option<RawEntity>, names: Seq<Seq<char>>) -> Option<Entity> {
    match e {
        Some(e) => Some(entity_of(e, names)),
        None => None,
    }
}

pub open spec fn opt_entity_known(e: Option<RawEntity>, names: Seq<Seq<char>>) -> bool {
    match e {
        Some(e) => entity_known(e, names),
        None => true,
    }
}

pub open spec fn action_name_of(a: Option<(Seq<u8>, i64)>) -> Option<Seq<u8>> {
    match a {
        Some((n, _)) => Some(n),
        None => None,
    }
}

pub open spec fn effect_kind_name_of(e: Option<(Seq<u8>, i64, Seq<u8>, i64)>) -> Option<Seq<u8>> {
    match e {
        Some((n, _, _, _)) => Some(n),
        None => None,
    }
}

pub open spec fn effect_name_of(e: Option<(Seq<u8>, i64, Seq<u8>, i64)>) -> Option<Seq<u8>> {
    match e {
        Some((_, _, n, _)) => Some(n),
        None => None,
    }
}

/// Every name of a line is held by `names`.
pub open spec fn event_known(raw: RawEvent, names: Seq<Seq<char>>) -> bool {
    &&& entity_known(raw.source, names)
    &&& opt_entity_known(raw.target, names)
    &&& opt_known(action_name_of(raw.action), names)
    &&& opt_known(effect_kind_name_of(raw.effect), names)
    &&& opt_known(effect_name_of(raw.effect), names)
}

/// The event that a line gives once its names are interned in `names`.
/// Damage and heal events carry their amounts and critical flag; the amount
/// of any other event is its charge count.
pub open spec fn event_of(raw: RawEvent, line_number: usize, names: Seq<Seq<char>>) -> CombatEvent {
    let kind = kind_spec(raw.effect);
    let is_damage = kind == EffectKind::Damage;
    let is_heal = kind == EffectKind::Heal;
    let p = raw.payload;
    CombatEvent {
        line_number,
        timestamp: raw.timestamp,
        source_entity: entity_of(raw.source, names),
        target_entity: opt_entity_of(raw.target, names),
        action_name: opt_key(action_name_of(raw.action), names),
        action_id: match raw.action {
            Some((_, id)) => Some(id),
            None => None,
        },
        effect_type_name: opt_key(effect_kind_name_of(raw.effect), names),
        effect_type_id: match raw.effect {
            Some((_, id, _, _)) => Some(id),
            None => None,
        },
        effect_name: opt_key(effect_name_of(raw.effect), names),
        effect_id: match raw.effect {
            Some((_, _, _, id)) => Some(id),
            None => None,
        },
        effect_kind: kind,
        charges: if p.is_some() && !is_damage && !is_heal { Some(p.unwrap().amount) } else { None },
        damage: if p.is_some() && is_damage { Some(p.unwrap().amount) } else { None },
        effective_damage: if p.is_some() && is_damage { Some(effective_of(p.unwrap())) } else { None },
        heal: if p.is_some() && is_heal { Some(p.unwrap().amount) } else { None },
        effective_heal: if p.is_some() && is_heal { Some(effective_of(p.unwrap())) } else { None },
        is_critical: if p.is_some() && (is_damage || is_heal) { Some(p.unwrap().critical) } else { None },
        is_reflected: if p.is_some() && is_damage { Some(p.unwrap().reflected) } else { None },
        damage_type_id: if p.is_some() && is_damage { p.unwrap().type_id } else { None },
        reduction_class_id: if p.is_some() && is_damage { p.unwrap().reduction_class_id } else { None },
        damage_reduced: if p.is_some() && is_damage { p.unwrap().damage_reduced } else { None },
        reduction_type_id: if p.is_some() && is_damage { p.unwrap().reduction_type_id } else { None },
        threat: raw.threat,
    }
}

/// The effective amount, which is the whole amount when none is given.
pub open spec fn effective_of(p: Payload) -> i64 {
    match p.effective {
        Some(e) => e,
        None => p.amount,
    }
}

/// The event that line `line_number` decodes to, with names keyed by `names`.
pub open spec fn line_spec(line: Seq<u8>, line_number: usize, names: Seq<Seq<char>>) -> Option<CombatEvent> {
    match raw_line_spec(line) {
        Some(raw) => Some(event_of(raw, line_number, names)),
        None => None,
    }
}

proof fn lemma_opt_key_stable(o: Option<Seq<u8>>, a: Seq<Seq<char>>, b: Seq<Seq<char>>)
    requires
        extends(b, a),
        b.no_duplicates(),
        opt_known(o, a),
    ensures
        opt_key(o, a) == opt_key(o, b),
        opt_known(o, b),
{
    if let Some(x) = o {
        lemma_key_stable(a, b, latin1(x));
    }
}

proof fn lemma_entity_stable(e: RawEntity, a: Seq<Seq<char>>, b: Seq<Seq<char>>)
    requires
        extends(b, a),
        b.no_duplicates(),
        entity_known(e, a),
    ensures
        entity_of(e, a) == entity_of(e, b),
        entity_known(e, b),
{
    lemma_opt_key_stable(e.name, a, b);
    lemma_opt_key_stable(e.coordinates, a, b);
}

proof fn lemma_opt_entity_stable(e: Option<RawEntity>, a: Seq<Seq<char>>, b: Seq<Seq<char>>)
    requires
        extends(b, a),
        b.no_duplicates(),
        opt_entity_known(e, a),
    ensures
        opt_entity_of(e, a) == opt_entity_of(e, b),
        opt_entity_known(e, b),
{
    if let Some(x) = e {
        lemma_entity_stable(x, a, b);
    }
}

/// Decoding a line again, against the dictionary that the first decoding
/// left or any growth of it, gives an equal event: names keep their keys.
pub proof fn lemma_parse_idempotent(line: Seq<u8>, line_number: usize, names: Seq<Seq<char>>, later: Seq<Seq<char>>)
    requires
        raw_line_spec(line).is_some(),
        event_known(raw_line_spec(line).unwrap(), names),
        extends(later, names),
        later.no_duplicates(),
    ensures
        line_spec(line, line_number, later) == line_spec(line, line_number, names),
{
    let raw = raw_line_spec(line).unwrap();
    lemma_entity_stable(raw.source, names, later);
    lemma_opt_entity_stable(raw.target, names, later);
    lemma_opt_key_stable(action_name_of(raw.action), names, later);
    lemma_opt_key_stable(effect_kind_name_of(raw.effect), names, later);
    lemma_opt_key_stable(effect_name_of(raw.effect), names, later);
}

/// A line too short for its timestamp is malformed.
pub proof fn lemma_short_line_malformed(line: Seq<u8>)
    requires
        line.len() < 14,
    ensures
        raw_line_spec(line).is_none(),
{
    reveal(raw_line_spec);
}

/// A dictionary that grows keeps holding the names of a line.
pub proof fn lemma_event_known_grows(raw: RawEvent, a: Seq<Seq<char>>, b: Seq<Seq<char>>)
    requires
        event_known(raw, a),
        extends(b, a),
        b.no_duplicates(),
    ensures
        event_known(raw, b),
{
    lemma_entity_stable(raw.source, a, b);
    lemma_opt_entity_stable(raw.target, a, b);
    lemma_opt_key_stable(action_name_of(raw.action), a, b);
    lemma_opt_key_stable(effect_kind_name_of(raw.effect), a, b);
    lemma_opt_key_stable(effect_name_of(raw.effect), a, b);
}

fn intern_opt(interner: &mut Interner, o: Option<&[u8]>) -> (r: Option<IStr>)
    requires
        old(interner).wf(),
        old(interner)@.len() < u32::MAX,
    ensures
        final(interner).wf(),
        extends(final(interner)@, old(interner)@),
        final(interner)@.len() <= old(interner)@.len() + 1,
        opt_known(opt_view(o), old(interner)@) ==> final(interner)@ == old(interner)@,
        r == opt_key(opt_view(o), final(interner)@),
        opt_known(opt_view(o), final(interner)@),
{
    match o {
        Some(x) => Some(interner.intern(x)),
        None => {
            assert(interner@.subrange(0, interner@.len() as int) =~= interner@);
            None
        },
    }
}

fn intern_entity(interner: &mut Interner, e: &EntityParts) -> (r: Entity)
    requires
        old(interner).wf(),
        old(interner)@.len() + 2 <= u32::MAX,
    ensures
        final(interner).wf(),
        extends(final(interner)@, old(interner)@),
        final(interner)@.len() <= old(interner)@.len() + 2,
        entity_known(e@, old(interner)@) ==> final(interner)@ == old(interner)@,
        r == entity_of(e@, final(interner)@),
        entity_known(e@, final(interner)@),
{
    let ghost s0 = interner@;
    let name = intern_opt(interner, e.name);
    let ghost s1 = interner@;
    let coordinates = intern_opt(interner, e.coordinates);
    proof {
        lemma_extends_trans(s0, s1, interner@);
        lemma_opt_key_stable(e@.name, s1, interner@);
        if entity_known(e@, s0) {
            assert(s1 == s0);
        }
    }
    Entity {
        name,
        class_id: e.class_id,
        log_id: e.log_id,
        entity_type: e.kind,
        coordinates,
        health: e.health,
    }
}

fn intern_opt_entity(interner: &mut Interner, e: &Option<EntityParts>) -> (r: Option<Entity>)
    requires
        old(interner).wf(),
        old(interner)@.len() + 2 <= u32::MAX,
    ensures
        final(interner).wf(),
        extends(final(interner)@, old(interner)@),
        final(interner)@.len() <= old(interner)@.len() + 2,
        opt_entity_known(opt_parts_view(*e), old(interner)@) ==> final(interner)@ == old(interner)@,
        r == opt_entity_of(opt_parts_view(*e), final(interner)@),
        opt_entity_known(opt_parts_view(*e), final(interner)@),
{
    match e {
        Some(x) => Some(intern_entity(interner, x)),
        None => {
            assert(interner@.subrange(0, interner@.len() as int) =~= interner@);
            None
        },
    }
}

/// Decodes line `line_number` of a log, interning its names. A line whose
/// structure is malformed gives `None` and leaves the dictionary untouched.
pub fn parse_line(line_number: usize, line: &[u8], interner: &mut Interner) -> (r: Option<CombatEvent>)
    requires
        old(interner).wf(),
        old(interner)@.len() + 8 <= u32::MAX,
    ensures
        final(interner).wf(),
        extends(final(interner)@, old(interner)@),
        final(interner)@.len() <= old(interner)@.len() + 7,
        r == line_spec(line@, line_number, final(interner)@),
        raw_line_spec(line@).is_none() ==> final(interner)@ == old(interner)@,
        raw_line_spec(line@).is_some() ==> event_known(raw_line_spec(line@).unwrap(), final(interner)@),
        raw_line_spec(line@).is_some() && event_known(raw_line_spec(line@).unwrap(), old(interner)@)
            ==> final(interner)@ == old(interner)@,
{
    proof {
        assert(interner@.subrange(0, interner@.len() as int) =~= interner@);
    }
    match parse_line_parts(line) {
        Some(parts) => Some(intern_line(line_number, &parts, interner)),
        None => None,
    }
}

/// Interns the names of a line whose structure is already read, giving its
/// event. Reading structure needs no dictionary, so it can run in parallel
/// over disjoint lines; this step then runs in line order.
pub fn intern_line(line_number: usize, parts: &LineParts, interner: &mut Interner) -> (r: CombatEvent)
    requires
        old(interner).wf(),
        old(interner)@.len() + 8 <= u32::MAX,
    ensures
        final(interner).wf(),
        extends(final(interner)@, old(interner)@),
        final(interner)@.len() <= old(interner)@.len() + 7,
        r == event_of(parts@, line_number, final(interner)@),
        event_known(parts@, final(interner)@),
        event_known(parts@, old(interner)@) ==> final(interner)@ == old(interner)@,
{
    let ghost raw = parts@;
    let ghost s0 = interner@;
    let source_entity = intern_entity(interner, &parts.source);
    let ghost s1 = interner@;
    let target_entity = intern_opt_entity(interner, &parts.target);
    let ghost s2 = interner@;
    let (action_name, action_id) = match parts.action {
        Some((n, id)) => (intern_opt(interner, Some(n)), Some(id)),
        None => (intern_opt(interner, None), None),
    };
    let ghost s3 = interner@;
    let (kind_name_opt, name_opt, effect_type_id, effect_id) = match &parts.effect {
        Some(e) => (Some(e.kind_name), Some(e.name), Some(e.kind_id), Some(e.id)),
        None => (None, None, None, None),
    };
    let effect_type_name = intern_opt(interner, kind_name_opt);
    let ghost s4 = interner@;
    let effect_name = intern_opt(interner, name_opt);
    let ghost s5 = interner@;
    proof {
        lemma_extends_trans(s0, s1, s2);
        lemma_extends_trans(s0, s2, s3);
        lemma_extends_trans(s0, s3, s4);
        lemma_extends_trans(s0, s4, s5);
        lemma_extends_trans(s1, s2, s3);
        lemma_extends_trans(s1, s3, s4);
        lemma_extends_trans(s1, s4, s5);
        lemma_extends_trans(s2, s3, s4);
        lemma_extends_trans(s2, s4, s5);
        lemma_extends_trans(s3, s4, s5);
        lemma_entity_stable(raw.source, s1, s5);
        lemma_opt_entity_stable(raw.target, s2, s5);
        lemma_opt_key_stable(action_name_of(raw.action), s3, s5);
        lemma_opt_key_stable(effect_kind_name_of(raw.effect), s4, s5);
        if event_known(raw, s0) {
            lemma_entity_stable(raw.source, s0, s1);
            lemma_opt_entity_stable(raw.target, s0, s1);
            lemma_opt_entity_stable(raw.target, s1, s2);
            lemma_opt_key_stable(action_name_of(raw.action), s0, s2);
            lemma_opt_key_stable(effect_kind_name_of(raw.effect), s0, s3);
            lemma_opt_key_stable(effect_name_of(raw.effect), s0, s4);
        }
    }
    let kind = effect_kind_of(&parts.effect);
    let is_damage = kind == EffectKind::Damage;
    let is_heal = kind == EffectKind::Heal;
    let (charges, damage, effective_damage, heal, effective_heal, is_critical) = match parts.payload {
        Some(p) => {
            let effective = match p.effective {
                Some(e) => e,
                None => p.amount,
            };
            if is_damage {
                (None, Some(p.amount), Some(effective), None, None, Some(p.critical))
            } else if is_heal {
                (None, None, None, Some(p.amount), Some(effective), Some(p.critical))
            } else {
                (Some(p.amount), None, None, None, None, None)
            }
        },
        None => (None, None, None, None, None, None),
    };
    let (is_reflected, damage_type_id) = match parts.payload {
        Some(p) => if is_damage { (Some(p.reflected), p.type_id) } else { (None, None) },
        None => (None, None),
    };
    let (reduction_class_id, damage_reduced, reduction_type_id) = match parts.payload {
        Some(p) => if is_damage {
            (p.reduction_class_id, p.damage_reduced, p.reduction_type_id)
        } else {
            (None, None, None)
        },
        None => (None, None, None),
    };
    CombatEvent {
        line_number,
        timestamp: parts.timestamp,
        source_entity,
        target_entity,
        action_name,
        action_id,
        effect_type_name,
        effect_type_id,
        effect_name,
        effect_id,
        effect_kind: kind,
        charges,
        damage,
        effective_damage,
        heal,
        effective_heal,
        is_critical,
        is_reflected,
        damage_type_id,
        reduction_class_id,
        damage_reduced,
        reduction_type_id,
        threat: parts.threat,
    }
}

} // verus!
