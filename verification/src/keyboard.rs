//! A keyboard: a layout placed on a geometry, flattened into a symbol
//! to key lookup table that the cost model scans with.
use vstd::prelude::*;
use crate::geometry::{Geometry, Hand, Finger, SpecialSymbol, spec_key_for_layout,
    spec_shift_effort_for, spec_special_keys, MAX_EFFORT};
use crate::layout::{Layout, Entry, entry_view, spec_entries, spec_upper_run};
use crate::parser::Position;

verus! {

/// One typable symbol's key: where it sits, which hand and finger type
/// it, whether it needs shift, and its full effort (shift included).
#[derive(Copy, Clone, Debug, PartialEq, Eq)]
pub struct Key {
    pub hand: Hand,
    pub finger: Finger,
    pub shifted: bool,
    pub effort: usize,
    pub position: Position,
}

pub type KeyMap = Vec<(char, Key)>;

/// A layout bound to a geometry, with its symbol lookup table.
pub struct Keyboard {
    pub name: String,
    pub layout: Layout,
    pub geometry: Geometry,
    pub key_map: KeyMap,
}

/// Keys can cost at most a base effort plus one shift press.
pub const MAX_KEY_EFFORT: usize = 19998;

/// The table rows of one layout entry: the normal symbol's key, then
/// the shifted symbol's key with the off-hand shift effort added.  An
/// entry the geometry does not cover adds nothing; a shifted symbol is
/// skipped when the geometry has no shift key to press it with.
pub open spec fn spec_entry_rows(
    g: Geometry,
    e: (Position, (Seq<char>, Seq<char>)),
) -> Seq<(char, Key)> {
    match spec_key_for_layout(g, e.0) {
        Some(info) => {
            let normal_part: Seq<(char, Key)> = if e.1.1.len() > 0 {
                seq![
                    (
                        e.1.1[0],
                        Key {
                            hand: info.hand,
                            finger: info.finger,
                            shifted: false,
                            effort: info.effort,
                            position: info.position,
                        },
                    ),
                ]
            } else {
                Seq::empty()
            };
            let shifted_part: Seq<(char, Key)> = if e.1.0.len() > 0 {
                match spec_shift_effort_for(g, info.hand) {
                    Some(se) => seq![
                        (
                            e.1.0[0],
                            Key {
                                hand: info.hand,
                                finger: info.finger,
                                shifted: true,
                                effort: (info.effort + se) as usize,
                                position: info.position,
                            },
                        ),
                    ],
                    None => Seq::empty(),
                }
            } else {
                Seq::empty()
            };
            normal_part + shifted_part
        },
        None => Seq::empty(),
    }
}

/// The table rows of the layout entries from index `i` on.
pub open spec fn spec_layout_rows(
    g: Geometry,
    ent: Seq<(Position, (Seq<char>, Seq<char>))>,
    i: int,
) -> Seq<(char, Key)>
    decreases ent.len() - i,
{
    if i < 0 || i >= ent.len() {
        Seq::empty()
    } else {
        spec_entry_rows(g, ent[i]) + spec_layout_rows(g, ent, i + 1)
    }
}

/// The character a special key types, if it types one.
pub open spec fn spec_special_char(symbol: SpecialSymbol) -> Option<char> {
    match symbol {
        SpecialSymbol::Tab => Some('\t'),
        SpecialSymbol::Space => Some(' '),
        SpecialSymbol::Return => Some('\n'),
        _ => None,
    }
}

/// The table rows of the special keys from index `i` on.
pub open spec fn spec_special_rows(
    specials: Seq<(SpecialSymbol, crate::geometry::Key)>,
    i: int,
) -> Seq<(char, Key)>
    decreases specials.len() - i,
{
    if i < 0 || i >= specials.len() {
        Seq::empty()
    } else {
        let rest = spec_special_rows(specials, i + 1);
        match spec_special_char(specials[i].0) {
            Some(c) => seq![
                (
                    c,
                    Key {
                        hand: specials[i].1.hand,
                        finger: specials[i].1.finger,
                        shifted: false,
                        effort: specials[i].1.effort,
                        position: specials[i].1.position,
                    },
                ),
            ] + rest,
            None => rest,
        }
    }
}

/// The whole lookup table of a layout on a geometry.
pub open spec fn spec_key_map(g: Geometry, template: Seq<char>) -> Seq<(char, Key)> {
    spec_layout_rows(g, spec_entries(template), 0) + spec_special_rows(
        spec_special_keys(g),
        0,
    )
}

/// The key a symbol is typed with: the last table row for that symbol,
/// as later rows override earlier ones.
pub open spec fn spec_lookup(m: Seq<(char, Key)>, symbol: char) -> Option<Key>
    decreases m.len(),
{
    if m.len() == 0 {
        None
    } else if m.last().0 == symbol {
        Some(m.last().1)
    } else {
        spec_lookup(m.drop_last(), symbol)
    }
}

/// Whether every effort of the table is below the per-key bound.
pub open spec fn spec_key_map_bounded(m: Seq<(char, Key)>) -> bool {
    forall|j: int| 0 <= j < m.len() ==> (#[trigger] m[j]).1.effort <= MAX_KEY_EFFORT
}

proof fn lemma_layout_rows_congruent(
    g1: Geometry,
    g2: Geometry,
    ent: Seq<(Position, (Seq<char>, Seq<char>))>,
    i: int,
)
    requires
        crate::geometry::geometry_views_equal(g1, g2),
    ensures
        spec_layout_rows(g1, ent, i) == spec_layout_rows(g2, ent, i),
    decreases ent.len() - i,
{
    if 0 <= i < ent.len() {
        lemma_layout_rows_congruent(g1, g2, ent, i + 1);
        crate::geometry::lemma_geometry_congruent(g1, g2);
        assert(spec_entry_rows(g1, ent[i]) == spec_entry_rows(g2, ent[i]));
    }
}

/// The key table depends only on the geometry's grids and the layout
/// template, so two geometry values with the same grids build the same
/// table.
pub proof fn lemma_key_map_congruent(g1: Geometry, g2: Geometry, template: Seq<char>)
    requires
        crate::geometry::geometry_views_equal(g1, g2),
    ensures
        spec_key_map(g1, template) == spec_key_map(g2, template),
{
    crate::geometry::lemma_geometry_congruent(g1, g2);
    lemma_layout_rows_congruent(g1, g2, spec_entries(template), 0);
}

/// Whether two keys are the same key.
pub fn key_eq(a: &Key, b: &Key) -> (r: bool)
    ensures
        r == (*a == *b),
{
    let r = a.hand == b.hand && a.finger == b.finger && a.shifted == b.shifted && a.effort
        == b.effort && a.position.0 == b.position.0 && a.position.1 == b.position.1;
    if r {
        assert(a.position == b.position);
    }
    r
}

impl Keyboard {
    /// QWERTY on the US PC geometry.
    pub fn qwerty() -> (keyboard: Keyboard)
        ensures
            keyboard.layout.template@ == crate::layouts::QWERTY_TEMPLATE@,
            keyboard.geometry.template@ == crate::geometry::US_PC_TEMPLATE@,
            keyboard.key_map@ == spec_key_map(keyboard.geometry, keyboard.layout.template@),
            spec_key_map_bounded(keyboard.key_map@),
    {
        Keyboard::from(crate::layouts::qwerty(), Geometry::us_pc())
    }

    /// Binds a layout to a geometry: resolves every entry to a key and
    /// adds the typable special keys.
    pub fn from(layout: Layout, geometry: Geometry) -> (keyboard: Keyboard)
        ensures
            keyboard.layout.template@ == layout.template@,
            keyboard.geometry == geometry,
            keyboard.key_map@ == spec_key_map(geometry, layout.template@),
            spec_key_map_bounded(keyboard.key_map@),
            spec_entries(layout.template@).len() >= 19 ==> keyboard.name@ == spec_upper_run(
                spec_entries(layout.template@),
                13,
                19,
            ),
    {
        let entries = layout.entries();
        let name = if entries.len() >= 19 {
            layout.name()
        } else {
            String::new()
        };
        let key_map = Keyboard::keys_from(&layout, &geometry);
        Keyboard { name, layout, geometry, key_map }
    }

    /// The key a symbol is typed with on this keyboard.
    pub fn key_for(&self, symbol: &char) -> (r: Option<Key>)
        ensures
            r == spec_lookup(self.key_map@, *symbol),
    {
        lookup(&self.key_map, *symbol)
    }

    /// The lookup table of a layout on a geometry.
    #[verifier::rlimit(60)]
    fn keys_from(layout: &Layout, geometry: &Geometry) -> (map: KeyMap)
        ensures
            map@ == spec_key_map(*geometry, layout.template@),
            spec_key_map_bounded(map@),
    {
        let ghost ent = spec_entries(layout.template@);
        let entries = layout.entries();
        let mut map: KeyMap = Vec::new();
        let n: usize = entries.len();
        let ghost layout_part = spec_layout_rows(*geometry, ent, 0);
        for i in 0..n
            invariant
                n == entries@.len(),
                entries@.map_values(|e: Entry| entry_view(e)) == ent,
                layout_part == spec_layout_rows(*geometry, ent, 0),
                map@ + spec_layout_rows(*geometry, ent, i as int) =~= layout_part,
                spec_key_map_bounded(map@),
        {
            assert(entry_view(entries@[i as int]) == ent[i as int]);
            let ghost snap = map@;
            match geometry.key_for_layout(entries[i].position) {
                Some(info) => {
                    let normal_chars = crate::chars::to_char_vec(entries[i].normal.as_str());
                    if normal_chars.len() > 0 {
                        map.push(
                            (
                                normal_chars[0],
                                Key {
                                    hand: info.hand,
                                    finger: info.finger,
                                    shifted: false,
                                    effort: info.effort,
                                    position: info.position,
                                },
                            ),
                        );
                    }
                    let shifted_chars = crate::chars::to_char_vec(entries[i].shifted.as_str());
                    if shifted_chars.len() > 0 {
                        match geometry.shift_effort_for(&info) {
                            Some(se) => {
                                map.push(
                                    (
                                        shifted_chars[0],
                                        Key {
                                            hand: info.hand,
                                            finger: info.finger,
                                            shifted: true,
                                            effort: info.effort + se,
                                            position: info.position,
                                        },
                                    ),
                                );
                            },
                            None => {},
                        }
                    }
                },
                None => {},
            }
            assert(map@ =~= snap + spec_entry_rows(*geometry, ent[i as int]));
            assert(map@ + spec_layout_rows(*geometry, ent, i + 1) =~= layout_part);
        }
        let specials = geometry.special_keys();
        let ghost sp = spec_special_keys(*geometry);
        let m: usize = specials.len();
        for i in 0..m
            invariant
                m == specials@.len(),
                specials@ == sp,
                forall|j: int|
                    0 <= j < sp.len() ==> (#[trigger] sp[j]).1.effort
                        <= crate::geometry::MAX_EFFORT,
                map@ + spec_special_rows(sp, i as int) =~= layout_part + spec_special_rows(
                    sp,
                    0,
                ),
                spec_key_map_bounded(map@),
        {
            let ghost snap = map@;
            let info = specials[i].1;
            let special_char = match specials[i].0 {
                SpecialSymbol::Tab => Some('\t'),
                SpecialSymbol::Space => Some(' '),
                SpecialSymbol::Return => Some('\n'),
                _ => None,
            };
            match special_char {
                Some(c) => {
                    map.push(
                        (
                            c,
                            Key {
                                hand: info.hand,
                                finger: info.finger,
                                shifted: false,
                                effort: info.effort,
                                position: info.position,
                            },
                        ),
                    );
                },
                None => {},
            }
            assert(map@ + spec_special_rows(sp, i + 1) =~= layout_part + spec_special_rows(
                sp,
                0,
            ));
        }
        assert(map@ =~= spec_key_map(*geometry, layout.template@));
        map
    }
}

/// The last table row for `symbol`, scanning from the end.
fn lookup(map: &KeyMap, symbol: char) -> (r: Option<Key>)
    ensures
        r == spec_lookup(map@, symbol),
{
    let mut j: usize = map.len();
    assert(map@.take(j as int) =~= map@);
    while j > 0
        invariant
            j <= map@.len(),
            spec_lookup(map@, symbol) == spec_lookup(map@.take(j as int), symbol),
        decreases j,
    {
        j = j - 1;
        assert(map@.take(j + 1).drop_last() =~= map@.take(j as int));
        assert(map@.take(j + 1).last() == map@[j as int]);
        if map[j].0 == symbol {
            return Some(map[j].1);
        }
    }
    None
}

} // verus!
