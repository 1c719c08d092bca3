//! The built-in named layouts, written in the canonical template form
//! that `DNA::to_layout` reproduces: four row pairs of 13, 13, 11 and
//! 10 keys, the shifted line above the normal line of each row.
use vstd::prelude::*;
use crate::layout::Layout;

verus! {

pub const QWERTY_TEMPLATE: &'static str = "~ ! @ # $ % ^ & * ( ) _ +\n` 1 2 3 4 5 6 7 8 9 0 - =\n  Q W E R T Y U I O P { } |\n  q w e r t y u i o p [ ] \\\n  A S D F G H J K L : \"\n  a s d f g h j k l ; '\n    Z X C V B N M < > ?\n    z x c v b n m , . /";

pub const DVORAK_TEMPLATE: &'static str = "~ ! @ # $ % ^ & * ( ) { }\n` 1 2 3 4 5 6 7 8 9 0 [ ]\n  \" < > P Y F G C R L ? + |\n  ' , . p y f g c r l / = \\\n  A O E U I D H T N S _\n  a o e u i d h t n s -\n    : Q J K X B M W V Z\n    ; q j k x b m w v z";

pub const COLEMAK_TEMPLATE: &'static str = "~ ! @ # $ % ^ & * ( ) _ +\n` 1 2 3 4 5 6 7 8 9 0 - =\n  Q W F P G J L U Y : { } |\n  q w f p g j l u y ; [ ] \\\n  A R S T D H N E I O \"\n  a r s t d h n e i o '\n    Z X C V B K M < > ?\n    z x c v b k m , . /";

pub const WORKMAN_TEMPLATE: &'static str = "~ ! @ # $ % ^ & * ( ) _ +\n` 1 2 3 4 5 6 7 8 9 0 - =\n  Q D R W B J F U P : { } |\n  q d r w b j f u p ; [ ] \\\n  A S H T G Y N E O I \"\n  a s h t g y n e o i '\n    Z X M C V K L < > ?\n    z x m c v k l , . /";

pub const THE_1_TEMPLATE: &'static str = "~ / @ # $ % ^ & * ( ) _ +\n` 1 2 3 4 5 6 7 8 9 0 - =\n  K M L U ! V D R ' Q { } |\n  k m l u ? v d r \" q [ ] \\\n  A T H E : C S N O I >\n  a t h e . c s n o i <\n    Z P F J ; B G W X Y\n    z p f j , b g w x y";

pub const HALMAK_21_TEMPLATE: &'static str = "~ ! @ # $ % ^ & * < > _ +\n` 1 2 3 4 5 6 7 8 9 0 - =\n  W L R B Z : Q U D J { } |\n  w l r b z ; q u d j [ ] \\\n  S H N T ( ) A E O I \"\n  s h n t , . a e o i '\n    F M V C ? G P X K Y\n    f m v c / g p x k y";

/// The QWERTY layout.
pub fn qwerty() -> (layout: Layout)
    ensures
        layout.template@ == QWERTY_TEMPLATE@,
{
    Layout { template: QWERTY_TEMPLATE.to_owned() }
}

/// The Dvorak layout.
pub fn dvorak() -> (layout: Layout)
    ensures
        layout.template@ == DVORAK_TEMPLATE@,
{
    Layout { template: DVORAK_TEMPLATE.to_owned() }
}

/// The Colemak layout.
pub fn colemak() -> (layout: Layout)
    ensures
        layout.template@ == COLEMAK_TEMPLATE@,
{
    Layout { template: COLEMAK_TEMPLATE.to_owned() }
}

/// The Workman layout.
pub fn workman() -> (layout: Layout)
    ensures
        layout.template@ == WORKMAN_TEMPLATE@,
{
    Layout { template: WORKMAN_TEMPLATE.to_owned() }
}

/// The One layout.
pub fn the_1() -> (layout: Layout)
    ensures
        layout.template@ == THE_1_TEMPLATE@,
{
    Layout { template: THE_1_TEMPLATE.to_owned() }
}

/// The Halmak layout.
pub fn halmak_21() -> (layout: Layout)
    ensures
        layout.template@ == HALMAK_21_TEMPLATE@,
{
    Layout { template: HALMAK_21_TEMPLATE.to_owned() }
}

} // verus!
