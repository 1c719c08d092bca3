//! The physical board: which hand and finger serves each position, how
//! much effort each position costs, which positions start a digraph
//! badly and which position pairs roll comfortably.
//!
//! A geometry is a bundle of single-layer templates over the same grid;
//! every lookup is the composition of template lookups, stated exactly
//! by the spec functions below.
use vstd::prelude::*;
use crate::chars::{spec_is_digit, is_digit_char, to_char_vec};
use crate::parser::{Position, spec_value, spec_position_for, spec_tokens, value_for, position_for, line_to_symbols};

verus! {

/// A keyboard geometry: the symbol grid and the per-position metadata
/// grids, all in the same template coordinates.
pub struct Geometry {
    pub template: String,
    pub fingers: String,
    pub hands: String,
    pub efforts: String,
    pub rolling_pairs: String,
    pub bad_starters: String,
}

#[derive(Copy, Clone, Debug, PartialEq, Eq, Structural, Hash)]
pub enum SpecialSymbol {
    Tab,
    Space,
    Return,
    LeftShift,
    RightShift,
}

#[derive(Copy, Clone, Debug, PartialEq, Eq, Structural)]
pub enum Finger {
    Pinky,
    Ring,
    Middle,
    Pointy,
    Thumb,
}

#[derive(Copy, Clone, Debug, PartialEq, Eq, Structural)]
pub enum Hand {
    Left,
    Right,
}

/// One position's metadata.
#[derive(Copy, Clone, Debug, PartialEq, Eq)]
pub struct Key {
    pub position: Position,
    pub hand: Hand,
    pub finger: Finger,
    pub effort: usize,
}

pub type SpecialsMapping = Vec<(SpecialSymbol, Key)>;

/// Effort values are read from at most four digits, so they never
/// exceed this bound.
pub const MAX_EFFORT: usize = 9999;

/// The reference grid that layout positions are written against.
pub const LAYOUT_REFERENCE: &'static str = "` 1 2 3 4 5 6 7 8 9 0 - =\n  q w e r t y u i o p [ ] \\\n  a s d f g h j k l ; '\n   z x c v b n m , . /";

// ---------------------------------------------------------------------
// Compiled-in geometries
// ---------------------------------------------------------------------

pub const US_PC_TEMPLATE: &'static str = "` 1 2 3 4 5 6 7 8 9 0 - =\n⇥ q w e r t y u i o p [ ] \\\na s d f g h j k l ; ' ↵\n⇧ z x c v b n m , . / ⇪\n︺";

pub const US_PC_FINGERS: &'static str = "1 1 2 3 4 4 4 4 3 2 1 1 1\n1 1 2 3 4 4 4 4 3 2 1 1 1 1\n1 2 3 4 4 4 4 3 2 1 1 1\n1 1 2 3 4 4 4 4 3 2 1 1\n5";

pub const US_PC_HANDS: &'static str = "l l l l l l r r r r r r r\nl l l l l l r r r r r r r r\nl l l l l r r r r r r r\nl l l l l l r r r r r r\nr";

pub const US_PC_EFFORTS: &'static str = "17 14 08 08 13 16 23 19 09 08 07 15 17\n15 06 02 01 06 11 14 09 01 01 07 09 13 18\n01 00 00 00 07 07 00 00 00 01 05 11\n05 07 08 10 06 10 04 02 05 05 03 12\n00";

pub const US_PC_ROLLING_PAIRS: &'static str =
    "j; af fw as // sd df ;l jo we lm mi io ml va lj lk mo oi fe sf wf oj m; vs ;j ew vd kj vw li se jl fs er fa ji mk re";

pub const US_PC_BAD_STARTERS: &'static str = "q r t y u p [ ] \\ d g h k ' z x c b n , . /";

pub const FULL_ORTHO_TEMPLATE: &'static str = "` 1 2 3 4 5 6 7 8 9 0 - =\nq w e r t y u i o p [ ] \\\na s d f g h j k l ; '\nz x c v b n m , . /\n⌫ ⇧ ︺ ↵ ⇪ ⇥";

pub const FULL_ORTHO_FINGERS: &'static str = "1 1 2 3 4 4 4 4 3 2 1 1 1\n1 2 3 4 4 4 4 3 2 1 1 1 1\n1 2 3 4 4 4 4 3 2 1 1\n1 2 3 4 4 4 4 3 2 1\n5 5 5 5 5 5";

pub const FULL_ORTHO_HANDS: &'static str = "l l l l l l r r r r r r r\nl l l l l r r r r r r r r\nl l l l l r r r r r r\nl l l l l r r r r r\nl l l r r r";

pub const FULL_ORTHO_EFFORTS: &'static str = "17 14 08 08 13 16 23 19 09 08 07 15 17\n06 02 01 06 11 14 09 01 01 07 09 13 18\n01 00 00 00 07 07 00 00 00 01 05\n07 08 10 06 10 04 02 05 05 03\n00 00 00 00 00 00";

// ---------------------------------------------------------------------
// Spec model
// ---------------------------------------------------------------------

/// The numeric value of a digit string, most significant digit first.
pub open spec fn spec_digits_value(t: Seq<char>) -> int
    decreases t.len(),
{
    if t.len() == 0 {
        0
    } else {
        spec_digits_value(t.drop_last()) * 10 + (t.last() as u32 - 48)
    }
}

/// A token read as a number: one to four digits and nothing else.
pub open spec fn spec_parse_effort(t: Seq<char>) -> Option<usize> {
    if 1 <= t.len() <= 4 && (forall|k: int| 0 <= k < t.len() ==> spec_is_digit(t[k])) {
        Some(spec_digits_value(t) as usize)
    } else {
        None
    }
}

/// The hand serving a position, read off the hands grid.
pub open spec fn spec_hand_for(g: Geometry, position: Position) -> Option<Hand> {
    match spec_value(g.hands@, position) {
        Some(t) => if t == seq!['l'] {
            Some(Hand::Left)
        } else if t == seq!['r'] {
            Some(Hand::Right)
        } else {
            None
        },
        None => None,
    }
}

/// The finger serving a position, read off the fingers grid.
pub open spec fn spec_finger_for(g: Geometry, position: Position) -> Option<Finger> {
    match spec_value(g.fingers@, position) {
        Some(t) => if t == seq!['1'] {
            Some(Finger::Pinky)
        } else if t == seq!['2'] {
            Some(Finger::Ring)
        } else if t == seq!['3'] {
            Some(Finger::Middle)
        } else if t == seq!['4'] {
            Some(Finger::Pointy)
        } else if t == seq!['5'] {
            Some(Finger::Thumb)
        } else {
            None
        },
        None => None,
    }
}

/// The effort of a position, read off the efforts grid.
pub open spec fn spec_effort_for(g: Geometry, position: Position) -> Option<usize> {
    match spec_value(g.efforts@, position) {
        Some(t) => spec_parse_effort(t),
        None => None,
    }
}

/// The full key at a geometry position: defined when all three grids
/// have a well-formed entry there.
pub open spec fn spec_key_for_geometry(g: Geometry, position: Position) -> Option<Key> {
    match (spec_hand_for(g, position), spec_finger_for(g, position), spec_effort_for(g, position)) {
        (Some(hand), Some(finger), Some(effort)) => Some(Key { position, hand, finger, effort }),
        _ => None,
    }
}

/// A layout position translated into this geometry's grid: the symbol
/// at that slot of the reference grid, looked up in the geometry's own
/// template.
pub open spec fn spec_layout_to_geometry(g: Geometry, position: Position) -> Option<Position> {
    match spec_value(LAYOUT_REFERENCE@, position) {
        Some(letter) => spec_position_for(g.template@, letter),
        None => None,
    }
}

/// The key at a layout position.
pub open spec fn spec_key_for_layout(g: Geometry, position: Position) -> Option<Key> {
    match spec_layout_to_geometry(g, position) {
        Some(p) => spec_key_for_geometry(g, p),
        None => None,
    }
}

/// The glyph that stands for a special key in a geometry template.
pub open spec fn spec_special_glyph(symbol: SpecialSymbol) -> Seq<char> {
    match symbol {
        SpecialSymbol::Tab => seq!['⇥'],
        SpecialSymbol::Space => seq!['︺'],
        SpecialSymbol::Return => seq!['↵'],
        SpecialSymbol::LeftShift => seq!['⇧'],
        SpecialSymbol::RightShift => seq!['⇪'],
    }
}

/// The key of a special symbol: its glyph's position in the template,
/// resolved against the metadata grids.
pub open spec fn spec_special_key(g: Geometry, symbol: SpecialSymbol) -> Option<Key> {
    match spec_position_for(g.template@, spec_special_glyph(symbol)) {
        Some(p) => spec_key_for_geometry(g, p),
        None => None,
    }
}

/// A special key with the right-shift falling back to the left one on
/// boards that only mark a single shift.
pub open spec fn spec_special_entry(g: Geometry, symbol: SpecialSymbol) -> Option<Key> {
    match spec_special_key(g, symbol) {
        Some(k) => Some(k),
        None => if symbol is RightShift {
            spec_special_key(g, SpecialSymbol::LeftShift)
        } else {
            None
        },
    }
}

/// `seq![(symbol, k)]` when the entry exists, empty otherwise.
pub open spec fn spec_opt_entry(symbol: SpecialSymbol, k: Option<Key>) -> Seq<(SpecialSymbol, Key)> {
    match k {
        Some(key) => seq![(symbol, key)],
        None => Seq::empty(),
    }
}

/// The special-keys table of a geometry, in a fixed symbol order.
pub open spec fn spec_special_keys(g: Geometry) -> Seq<(SpecialSymbol, Key)> {
    spec_opt_entry(SpecialSymbol::Tab, spec_special_entry(g, SpecialSymbol::Tab)) + spec_opt_entry(
        SpecialSymbol::Space,
        spec_special_entry(g, SpecialSymbol::Space),
    ) + spec_opt_entry(SpecialSymbol::Return, spec_special_entry(g, SpecialSymbol::Return))
        + spec_opt_entry(SpecialSymbol::LeftShift, spec_special_entry(g, SpecialSymbol::LeftShift))
        + spec_opt_entry(
        SpecialSymbol::RightShift,
        spec_special_entry(g, SpecialSymbol::RightShift),
    )
}

/// The effort of the shift that a key's hand presses with its free
/// hand: the right shift for left-hand keys and the other way round.
pub open spec fn spec_shift_effort_for(g: Geometry, hand: Hand) -> Option<usize> {
    match hand {
        Hand::Left => match spec_special_entry(g, SpecialSymbol::RightShift) {
            Some(k) => Some(k.effort),
            None => None,
        },
        Hand::Right => match spec_special_entry(g, SpecialSymbol::LeftShift) {
            Some(k) => Some(k.effort),
            None => None,
        },
    }
}

/// The positions of the bad-starter tokens from index `k` on.
pub open spec fn spec_bad_positions(g: Geometry, tokens: Seq<Seq<char>>, k: int) -> Seq<Position>
    decreases tokens.len() - k,
{
    if k < 0 || k >= tokens.len() {
        Seq::empty()
    } else {
        let rest = spec_bad_positions(g, tokens, k + 1);
        if tokens[k].len() > 0 {
            match spec_position_for(g.template@, seq![tokens[k][0]]) {
                Some(p) => seq![p] + rest,
                None => rest,
            }
        } else {
            rest
        }
    }
}

/// The rolling position pairs of the tokens from index `k` on.
pub open spec fn spec_rolling_pairs(g: Geometry, tokens: Seq<Seq<char>>, k: int) -> Seq<
    (Position, Position),
>
    decreases tokens.len() - k,
{
    if k < 0 || k >= tokens.len() {
        Seq::empty()
    } else {
        let rest = spec_rolling_pairs(g, tokens, k + 1);
        if tokens[k].len() >= 2 {
            match (
                spec_position_for(g.template@, seq![tokens[k][0]]),
                spec_position_for(g.template@, seq![tokens[k][1]]),
            ) {
                (Some(p1), Some(p2)) => seq![(p1, p2)] + rest,
                _ => rest,
            }
        } else {
            rest
        }
    }
}

/// Whether two geometry values carry the same grids.
pub open spec fn geometry_views_equal(g1: Geometry, g2: Geometry) -> bool {
    &&& g1.template@ == g2.template@
    &&& g1.fingers@ == g2.fingers@
    &&& g1.hands@ == g2.hands@
    &&& g1.efforts@ == g2.efforts@
    &&& g1.rolling_pairs@ == g2.rolling_pairs@
    &&& g1.bad_starters@ == g2.bad_starters@
}

proof fn lemma_bad_positions_congruent(g1: Geometry, g2: Geometry, tokens: Seq<Seq<char>>, k: int)
    requires
        g1.template@ == g2.template@,
    ensures
        spec_bad_positions(g1, tokens, k) == spec_bad_positions(g2, tokens, k),
    decreases tokens.len() - k,
{
    if 0 <= k < tokens.len() {
        lemma_bad_positions_congruent(g1, g2, tokens, k + 1);
    }
}

proof fn lemma_rolling_pairs_congruent(g1: Geometry, g2: Geometry, tokens: Seq<Seq<char>>, k: int)
    requires
        g1.template@ == g2.template@,
    ensures
        spec_rolling_pairs(g1, tokens, k) == spec_rolling_pairs(g2, tokens, k),
    decreases tokens.len() - k,
{
    if 0 <= k < tokens.len() {
        lemma_rolling_pairs_congruent(g1, g2, tokens, k + 1);
    }
}

/// Every geometry lookup depends only on the grids, so two geometry
/// values with the same grids agree everywhere.
pub proof fn lemma_geometry_congruent(g1: Geometry, g2: Geometry)
    requires
        geometry_views_equal(g1, g2),
    ensures
        forall|pos: Position| spec_key_for_geometry(g1, pos) == spec_key_for_geometry(g2, pos),
        forall|pos: Position| spec_key_for_layout(g1, pos) == spec_key_for_layout(g2, pos),
        spec_special_keys(g1) == spec_special_keys(g2),
        forall|h: Hand| spec_shift_effort_for(g1, h) == spec_shift_effort_for(g2, h),
        spec_bad_positions(g1, spec_tokens(g1.bad_starters@), 0) == spec_bad_positions(
            g2,
            spec_tokens(g2.bad_starters@),
            0,
        ),
        spec_rolling_pairs(g1, spec_tokens(g1.rolling_pairs@), 0) == spec_rolling_pairs(
            g2,
            spec_tokens(g2.rolling_pairs@),
            0,
        ),
{
    assert forall|pos: Position|
        spec_key_for_geometry(g1, pos) == spec_key_for_geometry(g2, pos) by {
        assert(spec_hand_for(g1, pos) == spec_hand_for(g2, pos));
        assert(spec_finger_for(g1, pos) == spec_finger_for(g2, pos));
        assert(spec_effort_for(g1, pos) == spec_effort_for(g2, pos));
    }
    assert forall|pos: Position|
        spec_key_for_layout(g1, pos) == spec_key_for_layout(g2, pos) by {
        assert(spec_layout_to_geometry(g1, pos) == spec_layout_to_geometry(g2, pos));
    }
    assert(spec_special_entry(g1, SpecialSymbol::Tab) == spec_special_entry(
        g2,
        SpecialSymbol::Tab,
    ));
    assert(spec_special_entry(g1, SpecialSymbol::Space) == spec_special_entry(
        g2,
        SpecialSymbol::Space,
    ));
    assert(spec_special_entry(g1, SpecialSymbol::Return) == spec_special_entry(
        g2,
        SpecialSymbol::Return,
    ));
    assert(spec_special_entry(g1, SpecialSymbol::LeftShift) == spec_special_entry(
        g2,
        SpecialSymbol::LeftShift,
    ));
    assert(spec_special_entry(g1, SpecialSymbol::RightShift) == spec_special_entry(
        g2,
        SpecialSymbol::RightShift,
    ));
    assert(spec_special_keys(g1) == spec_special_keys(g2));
    assert forall|h: Hand| spec_shift_effort_for(g1, h) == spec_shift_effort_for(g2, h) by {
        assert(spec_special_entry(g1, SpecialSymbol::RightShift) == spec_special_entry(
            g2,
            SpecialSymbol::RightShift,
        ));
    }
    lemma_bad_positions_congruent(g1, g2, spec_tokens(g1.bad_starters@), 0);
    lemma_rolling_pairs_congruent(g1, g2, spec_tokens(g1.rolling_pairs@), 0);
}

// ---------------------------------------------------------------------
// Executable lookups
// ---------------------------------------------------------------------

/// A one-character string.
fn char_string(c: char) -> (s: String)
    ensures
        s@ == seq![c],
{
    let mut s = String::new();
    crate::chars::push_char(&mut s, c);
    assert(s@ =~= seq![c]);
    s
}

/// Whether the token is this single character.
fn token_is(token: &String, c: char) -> (r: bool)
    ensures
        r == (token@ == seq![c]),
{
    let chars = to_char_vec(token.as_str());
    if chars.len() == 1 && chars[0] == c {
        assert(token@ =~= seq![c]);
        true
    } else {
        assert(token@ != seq![c]) by {
            if token@ == seq![c] {
                assert(chars@.len() == 1 && chars@[0] == c);
            }
        }
        false
    }
}

/// A token read as an effort number: one to four digits.
fn parse_effort(token: &String) -> (r: Option<usize>)
    ensures
        r == spec_parse_effort(token@),
        r is Some ==> r->Some_0 <= MAX_EFFORT,
{
    let chars = to_char_vec(token.as_str());
    let n: usize = chars.len();
    if n < 1 || n > 4 {
        return None;
    }
    let mut value: usize = 0;
    for i in 0..n
        invariant
            n == chars@.len(),
            chars@ == token@,
            1 <= n <= 4,
            forall|k: int| 0 <= k < i ==> spec_is_digit(token@[k]),
            value == spec_digits_value(token@.take(i as int)),
            value < 10000,
    {
        let c = chars[i];
        if !is_digit_char(c) {
            return None;
        }
        assert(value <= 999) by {
            lemma_digits_value_bound(token@.take(i as int));
        }
        value = value * 10 + ((c as u32 - 48) as usize);
        assert(token@.take(i + 1).drop_last() =~= token@.take(i as int));
        assert(token@.take(i + 1).last() == token@[i as int]);
    }
    assert(token@.take(n as int) =~= token@);
    Some(value)
}

/// A digit string of length at most `n` is below `10^n`.
proof fn lemma_digits_value_bound(t: Seq<char>)
    requires
        forall|k: int| 0 <= k < t.len() ==> spec_is_digit(t[k]),
    ensures
        0 <= spec_digits_value(t),
        t.len() <= 1 ==> spec_digits_value(t) <= 9,
        t.len() <= 2 ==> spec_digits_value(t) <= 99,
        t.len() <= 3 ==> spec_digits_value(t) <= 999,
        t.len() <= 4 ==> spec_digits_value(t) <= 9999,
    decreases t.len(),
{
    if t.len() > 0 {
        assert(forall|k: int| 0 <= k < t.drop_last().len() ==> spec_is_digit(t.drop_last()[k]));
        lemma_digits_value_bound(t.drop_last());
        assert(spec_is_digit(t.last()));
    }
}

impl Geometry {
    /// An owned copy of the geometry, with the same grids.
    pub fn duplicate(&self) -> (r: Geometry)
        ensures
            r.template@ == self.template@,
            r.fingers@ == self.fingers@,
            r.hands@ == self.hands@,
            r.efforts@ == self.efforts@,
            r.rolling_pairs@ == self.rolling_pairs@,
            r.bad_starters@ == self.bad_starters@,
    {
        Geometry {
            template: self.template.clone(),
            fingers: self.fingers.clone(),
            hands: self.hands.clone(),
            efforts: self.efforts.clone(),
            rolling_pairs: self.rolling_pairs.clone(),
            bad_starters: self.bad_starters.clone(),
        }
    }

    /// The staggered US PC board, the compiled-in default geometry.
    pub fn us_pc() -> (g: Geometry)
        ensures
            g.template@ == US_PC_TEMPLATE@,
            g.fingers@ == US_PC_FINGERS@,
            g.hands@ == US_PC_HANDS@,
            g.efforts@ == US_PC_EFFORTS@,
            g.rolling_pairs@ == US_PC_ROLLING_PAIRS@,
            g.bad_starters@ == US_PC_BAD_STARTERS@,
    {
        Geometry {
            template: US_PC_TEMPLATE.to_owned(),
            fingers: US_PC_FINGERS.to_owned(),
            hands: US_PC_HANDS.to_owned(),
            efforts: US_PC_EFFORTS.to_owned(),
            rolling_pairs: US_PC_ROLLING_PAIRS.to_owned(),
            bad_starters: US_PC_BAD_STARTERS.to_owned(),
        }
    }

    /// A fully ortholinear board with a thumb row, the other compiled-in
    /// geometry.
    pub fn full_ortho() -> (g: Geometry)
        ensures
            g.template@ == FULL_ORTHO_TEMPLATE@,
            g.fingers@ == FULL_ORTHO_FINGERS@,
            g.hands@ == FULL_ORTHO_HANDS@,
            g.efforts@ == FULL_ORTHO_EFFORTS@,
            g.rolling_pairs@ == US_PC_ROLLING_PAIRS@,
            g.bad_starters@ == US_PC_BAD_STARTERS@,
    {
        Geometry {
            template: FULL_ORTHO_TEMPLATE.to_owned(),
            fingers: FULL_ORTHO_FINGERS.to_owned(),
            hands: FULL_ORTHO_HANDS.to_owned(),
            efforts: FULL_ORTHO_EFFORTS.to_owned(),
            rolling_pairs: US_PC_ROLLING_PAIRS.to_owned(),
            bad_starters: US_PC_BAD_STARTERS.to_owned(),
        }
    }

    /// The hand serving a geometry position.
    pub fn hand_for(&self, position: Position) -> (r: Option<Hand>)
        ensures
            r == spec_hand_for(*self, position),
    {
        match value_for(self.hands.as_str(), position) {
            Some(token) => {
                if token_is(&token, 'l') {
                    Some(Hand::Left)
                } else if token_is(&token, 'r') {
                    Some(Hand::Right)
                } else {
                    None
                }
            },
            None => None,
        }
    }

    /// The finger serving a geometry position.
    pub fn finger_for(&self, position: Position) -> (r: Option<Finger>)
        ensures
            r == spec_finger_for(*self, position),
    {
        match value_for(self.fingers.as_str(), position) {
            Some(token) => {
                if token_is(&token, '1') {
                    Some(Finger::Pinky)
                } else if token_is(&token, '2') {
                    Some(Finger::Ring)
                } else if token_is(&token, '3') {
                    Some(Finger::Middle)
                } else if token_is(&token, '4') {
                    Some(Finger::Pointy)
                } else if token_is(&token, '5') {
                    Some(Finger::Thumb)
                } else {
                    None
                }
            },
            None => None,
        }
    }

    /// The effort of a geometry position.
    pub fn effort_for(&self, position: Position) -> (r: Option<usize>)
        ensures
            r == spec_effort_for(*self, position),
            r is Some ==> r->Some_0 <= MAX_EFFORT,
    {
        match value_for(self.efforts.as_str(), position) {
            Some(token) => parse_effort(&token),
            None => None,
        }
    }

    /// The key at a geometry position, when all three metadata grids
    /// cover it.
    pub fn key_for_geometry(&self, position: Position) -> (r: Option<Key>)
        ensures
            r == spec_key_for_geometry(*self, position),
            r is Some ==> r->Some_0.effort <= MAX_EFFORT && r->Some_0.position == position,
    {
        match (self.hand_for(position), self.finger_for(position), self.effort_for(position)) {
            (Some(hand), Some(finger), Some(effort)) => Some(
                Key { position, hand, finger, effort },
            ),
            _ => None,
        }
    }

    /// A layout position translated to this geometry's grid.
    fn layout_to_geometry(&self, position_in_layout: Position) -> (r: Option<Position>)
        ensures
            r == spec_layout_to_geometry(*self, position_in_layout),
    {
        match value_for(LAYOUT_REFERENCE, position_in_layout) {
            Some(letter) => position_for(self.template.as_str(), letter),
            None => None,
        }
    }

    /// The key at a layout position.
    pub fn key_for_layout(&self, position: Position) -> (r: Option<Key>)
        ensures
            r == spec_key_for_layout(*self, position),
            r is Some ==> r->Some_0.effort <= MAX_EFFORT,
    {
        match self.layout_to_geometry(position) {
            Some(position) => self.key_for_geometry(position),
            None => None,
        }
    }

    /// The key of a special symbol, if its glyph stands in the template.
    fn special_key(&self, symbol: SpecialSymbol) -> (r: Option<Key>)
        ensures
            r == spec_special_key(*self, symbol),
            r is Some ==> r->Some_0.effort <= MAX_EFFORT,
    {
        let glyph: &'static str = match symbol {
            SpecialSymbol::Tab => "⇥",
            SpecialSymbol::Space => "︺",
            SpecialSymbol::Return => "↵",
            SpecialSymbol::LeftShift => "⇧",
            SpecialSymbol::RightShift => "⇪",
        };
        proof {
            reveal_strlit("⇥");
            reveal_strlit("︺");
            reveal_strlit("↵");
            reveal_strlit("⇧");
            reveal_strlit("⇪");
            assert(glyph@ =~= spec_special_glyph(symbol));
        }
        match position_for(self.template.as_str(), glyph.to_owned()) {
            Some(position) => self.key_for_geometry(position),
            None => None,
        }
    }

    /// The special key, with the right shift falling back to the left
    /// one.
    fn special_entry(&self, symbol: SpecialSymbol) -> (r: Option<Key>)
        ensures
            r == spec_special_entry(*self, symbol),
            r is Some ==> r->Some_0.effort <= MAX_EFFORT,
    {
        match self.special_key(symbol) {
            Some(k) => Some(k),
            None => match symbol {
                SpecialSymbol::RightShift => self.special_key(SpecialSymbol::LeftShift),
                _ => None,
            },
        }
    }

    /// The special-keys table of the geometry: one entry per special
    /// symbol whose glyph the template holds, the right shift borrowing
    /// the left one where only a single shift is marked.
    pub fn special_keys(&self) -> (specials: SpecialsMapping)
        ensures
            specials@ == spec_special_keys(*self),
            forall|j: int|
                0 <= j < specials@.len() ==> (#[trigger] specials@[j]).1.effort <= MAX_EFFORT,
    {
        let mut specials: SpecialsMapping = Vec::new();
        if let Some(k) = self.special_entry(SpecialSymbol::Tab) {
            specials.push((SpecialSymbol::Tab, k));
        }
        if let Some(k) = self.special_entry(SpecialSymbol::Space) {
            specials.push((SpecialSymbol::Space, k));
        }
        if let Some(k) = self.special_entry(SpecialSymbol::Return) {
            specials.push((SpecialSymbol::Return, k));
        }
        if let Some(k) = self.special_entry(SpecialSymbol::LeftShift) {
            specials.push((SpecialSymbol::LeftShift, k));
        }
        if let Some(k) = self.special_entry(SpecialSymbol::RightShift) {
            specials.push((SpecialSymbol::RightShift, k));
        }
        assert(specials@ =~= spec_special_keys(*self));
        specials
    }

    /// The positions of the bad-starter symbols: each token of the
    /// bad-starters list resolved (by its first character) to a
    /// template position.  Tokens the template does not hold are
    /// passed over.
    pub fn bad_starting_positions(&self) -> (r: Vec<Position>)
        ensures
            r@ == spec_bad_positions(*self, spec_tokens(self.bad_starters@), 0),
    {
        let tokens = line_to_symbols(self.bad_starters.as_str());
        let ghost tv = tokens@.map_values(|t: String| t@);
        let ghost full = spec_bad_positions(*self, tv, 0);
        let mut r: Vec<Position> = Vec::new();
        let n: usize = tokens.len();
        for k in 0..n
            invariant
                n == tokens@.len(),
                tv == tokens@.map_values(|t: String| t@),
                full == spec_bad_positions(*self, tv, 0),
                r@ + spec_bad_positions(*self, tv, k as int) =~= full,
        {
            assert(tokens@[k as int]@ == tv[k as int]);
            let chars = to_char_vec(tokens[k].as_str());
            if chars.len() > 0 {
                match position_for(self.template.as_str(), char_string(chars[0])) {
                    Some(position) => {
                        r.push(position);
                        assert(r@ + spec_bad_positions(*self, tv, k + 1) =~= full);
                    },
                    None => {
                        assert(r@ + spec_bad_positions(*self, tv, k + 1) =~= full);
                    },
                }
            } else {
                assert(r@ + spec_bad_positions(*self, tv, k + 1) =~= full);
            }
        }
        assert(r@ =~= full);
        r
    }

    /// The rolling position pairs: each two-character token of the
    /// rolling-pairs list resolved to the positions of its first and
    /// second character.  Tokens that are too short, or whose
    /// characters the template does not hold, are passed over.
    pub fn rolling_position_pairs(&self) -> (r: Vec<(Position, Position)>)
        ensures
            r@ == spec_rolling_pairs(*self, spec_tokens(self.rolling_pairs@), 0),
    {
        let tokens = line_to_symbols(self.rolling_pairs.as_str());
        let ghost tv = tokens@.map_values(|t: String| t@);
        let ghost full = spec_rolling_pairs(*self, tv, 0);
        let mut r: Vec<(Position, Position)> = Vec::new();
        let n: usize = tokens.len();
        for k in 0..n
            invariant
                n == tokens@.len(),
                tv == tokens@.map_values(|t: String| t@),
                full == spec_rolling_pairs(*self, tv, 0),
                r@ + spec_rolling_pairs(*self, tv, k as int) =~= full,
        {
            assert(tokens@[k as int]@ == tv[k as int]);
            let chars = to_char_vec(tokens[k].as_str());
            if chars.len() >= 2 {
                let first = position_for(self.template.as_str(), char_string(chars[0]));
                let second = position_for(self.template.as_str(), char_string(chars[1]));
                match (first, second) {
                    (Some(p1), Some(p2)) => {
                        r.push((p1, p2));
                        assert(r@ + spec_rolling_pairs(*self, tv, k + 1) =~= full);
                    },
                    _ => {
                        assert(r@ + spec_rolling_pairs(*self, tv, k + 1) =~= full);
                    },
                }
            } else {
                assert(r@ + spec_rolling_pairs(*self, tv, k + 1) =~= full);
            }
        }
        assert(r@ =~= full);
        r
    }

    /// The effort of pressing shift for a key of the given hand: the
    /// other hand's shift key.
    pub fn shift_effort_for(&self, key: &Key) -> (r: Option<usize>)
        ensures
            r == spec_shift_effort_for(*self, key.hand),
            r is Some ==> r->Some_0 <= MAX_EFFORT,
    {
        let entry = match key.hand {
            Hand::Left => self.special_entry(SpecialSymbol::RightShift),
            Hand::Right => self.special_entry(SpecialSymbol::LeftShift),
        };
        match entry {
            Some(k) => Some(k.effort),
            None => None,
        }
    }
}

} // verus!
