use halmak::layout::{Layout, Entry};
use halmak::layouts::{qwerty, dvorak, colemak};

#[test]
fn formats_name() {
    assert_eq!(qwerty().name(), "QWERTY");
    assert_eq!(colemak().name(), "QWFPGJ");
    assert_eq!(dvorak().name(), "',.PYF");
}

#[test]
fn creates_entries() {
    assert_eq!(
        qwerty().entries()[13],
        Entry {
            normal: "q".to_string(),
            shifted: "Q".to_string(),
            position: (1, 0),
        }
    );

    assert_eq!(
        qwerty().entries()[27],
        Entry {
            normal: "s".to_string(),
            shifted: "S".to_string(),
            position: (2, 1),
        }
    );

    assert_eq!(
        qwerty().entries()[39],
        Entry {
            normal: "c".to_string(),
            shifted: "C".to_string(),
            position: (3, 2),
        }
    );
}

#[test]
fn it_prints() {
    let result = qwerty().to_string(true);

    assert_eq!(result, " ` 1 2 3 4 5 6 7 8 9 0 - =\n   q w e r t y u i o p [ ] \\\n   a s d f g h j k l ; \'\n    z x c v b n m , . /")
}

#[test]
fn long_name_reads_the_top_row() {
    assert_eq!(qwerty().long_name(), "QWERTYUIOP");
}

#[test]
fn duplicate_keeps_the_template() {
    let layout = qwerty();
    let copy = layout.duplicate();
    assert_eq!(copy.template, layout.template);
}

#[test]
fn entries_of_a_malformed_template_are_what_it_holds() {
    let layout = Layout { template: "A B\na b\nC\nc".to_string() };
    let entries = layout.entries();
    assert_eq!(entries.len(), 3);
    assert_eq!(entries[2].shifted, "C".to_string());
    assert_eq!(entries[2].position, (1, 0));
}
