//! A keyboard layout: a two-layer symbol template and its parsed entries.
use vstd::prelude::*;
use vstd::string::StringExecFns;
use crate::chars::{push_char, upper_char, spec_upper, to_char_vec};
use crate::parser::{Position, spec_two_layer, two_layer_mapping_for, map_view};

verus! {

/// A layout, kept as the template text it was written down as.
#[derive(Debug, PartialEq, Eq, Clone)]
pub struct Layout {
    pub template: String,
}

/// One key of a layout: its shifted and normal symbol and its position.
#[derive(Debug, PartialEq, Eq)]
pub struct Entry {
    pub normal: String,
    pub shifted: String,
    pub position: Position,
}

/// The spec-level reading of an entry.
pub open spec fn entry_view(e: Entry) -> (Position, (Seq<char>, Seq<char>)) {
    (e.position, (e.shifted@, e.normal@))
}

/// The parsed entries of a layout template.
pub open spec fn spec_entries(template: Seq<char>) -> Seq<(Position, (Seq<char>, Seq<char>))> {
    spec_two_layer(template)
}

/// The normal-layer symbols of entries `from .. to`, upper-cased and
/// run together.
pub open spec fn spec_upper_run(
    entries: Seq<(Position, (Seq<char>, Seq<char>))>,
    from: int,
    to: int,
) -> Seq<char>
    decreases to - from,
{
    if from >= to {
        Seq::empty()
    } else {
        entries[from].1.1.map_values(|c: char| spec_upper(c)) + spec_upper_run(
            entries,
            from + 1,
            to,
        )
    }
}

/// What follows entry `i` in the display form of a layout: a line break
/// before a new row, extra blanks at the splits of a split keyboard.
pub open spec fn spec_display_extra(i: int, us_pc: bool) -> Seq<char> {
    if i == 12 || i == 25 {
        seq!['\n', ' ', ' ']
    } else if i == 36 && us_pc {
        seq!['\n', ' ', ' ', ' ']
    } else if (i == 5 || i == 17 || i == 30 || i == 36 || i == 41) && !us_pc {
        seq![' ', ' ']
    } else {
        Seq::empty()
    }
}

/// The display form of the normal layer of `entries`, from entry `i` on.
pub open spec fn spec_display_from(
    entries: Seq<(Position, (Seq<char>, Seq<char>))>,
    i: int,
    us_pc: bool,
) -> Seq<char>
    decreases entries.len() - i,
{
    if i < 0 || i >= entries.len() {
        Seq::empty()
    } else {
        seq![' '] + entries[i].1.1 + spec_display_extra(i, us_pc) + spec_display_from(
            entries,
            i + 1,
            us_pc,
        )
    }
}

/// Appends `token` to `s` with every ASCII lower-case letter raised to
/// upper case.
fn append_upper(s: &mut String, token: &String)
    ensures
        final(s)@ == old(s)@ + token@.map_values(|c: char| spec_upper(c)),
{
    let chars = to_char_vec(token.as_str());
    let n: usize = chars.len();
    for i in 0..n
        invariant
            n == chars@.len(),
            chars@ == token@,
            s@ == old(s)@ + token@.take(i as int).map_values(|c: char| spec_upper(c)),
    {
        push_char(s, upper_char(chars[i]));
        assert(s@ =~= old(s)@ + token@.take(i + 1).map_values(|c: char| spec_upper(c)));
    }
    assert(token@.take(n as int) =~= token@);
}

impl Layout {
    /// An owned copy of the layout, with the same template.
    pub fn duplicate(&self) -> (r: Layout)
        ensures
            r.template@ == self.template@,
    {
        Layout { template: self.template.clone() }
    }

    /// The entries of the layout's template, in row-major position order.
    pub fn entries(&self) -> (entries: Vec<Entry>)
        ensures
            entries@.map_values(|e: Entry| entry_view(e)) == spec_entries(self.template@),
    {
        let mapping = two_layer_mapping_for(&self.template);
        let mut entries: Vec<Entry> = Vec::new();
        let n: usize = mapping.len();
        for i in 0..n
            invariant
                n == mapping@.len(),
                map_view(mapping@) == spec_two_layer(self.template@),
                entries@.map_values(|e: Entry| entry_view(e)) =~= map_view(mapping@).take(
                    i as int,
                ),
        {
            let item = &mapping[i];
            let position = item.0;
            let shifted = item.1.0.clone();
            let normal = item.1.1.clone();
            entries.push(Entry { normal, shifted, position });
            assert(entries@.map_values(|e: Entry| entry_view(e)) =~= map_view(mapping@).take(
                i + 1,
            ));
        }
        assert(map_view(mapping@).take(n as int) =~= map_view(mapping@));
        entries
    }

    /// The layout's short name: the first six normal symbols of the top
    /// letter row, in upper case.
    pub fn name(&self) -> (r: String)
        requires
            spec_entries(self.template@).len() >= 19,
        ensures
            r@ == spec_upper_run(spec_entries(self.template@), 13, 19),
    {
        self.upper_run(13, 19)
    }

    /// The layout's long name: the whole top letter row, in upper case.
    pub fn long_name(&self) -> (r: String)
        requires
            spec_entries(self.template@).len() >= 23,
        ensures
            r@ == spec_upper_run(spec_entries(self.template@), 13, 23),
    {
        self.upper_run(13, 23)
    }

    /// The normal symbols of entries `from .. to`, upper-cased and run
    /// together.
    fn upper_run(&self, from: usize, to: usize) -> (r: String)
        requires
            from <= to,
            spec_entries(self.template@).len() >= to,
        ensures
            r@ == spec_upper_run(spec_entries(self.template@), from as int, to as int),
    {
        let entries = self.entries();
        let ghost ev = spec_entries(self.template@);
        let mut r = String::new();
        let mut i: usize = from;
        while i < to
            invariant
                from <= i <= to <= entries@.len(),
                entries@.map_values(|e: Entry| entry_view(e)) == ev,
                r@ + spec_upper_run(ev, i as int, to as int) =~= spec_upper_run(
                    ev,
                    from as int,
                    to as int,
                ),
            decreases to - i,
        {
            assert(entry_view(entries@[i as int]) == ev[i as int]);
            append_upper(&mut r, &entries[i].normal);
            i = i + 1;
        }
        assert(r@ =~= spec_upper_run(ev, from as int, to as int));
        r
    }

    /// The normal layer written out for display: symbols separated by
    /// blanks, rows on their own lines, with the spacing of either a
    /// staggered (`us_pc`) or an ortholinear board.
    pub fn to_string(&self, us_pc: bool) -> (r: String)
        ensures
            r@ == spec_display_from(spec_entries(self.template@), 0, us_pc),
    {
        let entries = self.entries();
        let ghost ev = spec_entries(self.template@);
        let mut r = String::new();
        let n: usize = entries.len();
        for i in 0..n
            invariant
                n == entries@.len(),
                entries@.map_values(|e: Entry| entry_view(e)) == ev,
                r@ + spec_display_from(ev, i as int, us_pc) =~= spec_display_from(ev, 0, us_pc),
        {
            assert(entry_view(entries@[i as int]) == ev[i as int]);
            push_char(&mut r, ' ');
            let token = entries[i].normal.clone();
            let ghost before = r@;
            r.append(token.as_str());
            assert(r@ == before + ev[i as int].1.1);
            if i == 12 || i == 25 {
                push_char(&mut r, '\n');
                push_char(&mut r, ' ');
                push_char(&mut r, ' ');
            } else if i == 36 && us_pc {
                push_char(&mut r, '\n');
                push_char(&mut r, ' ');
                push_char(&mut r, ' ');
                push_char(&mut r, ' ');
            } else if (i == 5 || i == 17 || i == 30 || i == 36 || i == 41) && !us_pc {
                push_char(&mut r, ' ');
                push_char(&mut r, ' ');
            }
            assert(r@ =~= before + ev[i as int].1.1 + spec_display_extra(i as int, us_pc));
            assert(r@ + spec_display_from(ev, i + 1, us_pc) =~= spec_display_from(
                ev,
                0,
                us_pc,
            ));
        }
        assert(r@ =~= spec_display_from(ev, 0, us_pc));
        r
    }
}

} // verus!
