use teletarot::atlas::{
    atlas_cell, atlas_source, color_xp_to_siv, read_layout, suit_color, top_visible, BaseColor,
    CardBorderColor, TermColor,
};
use teletarot::cards::{Card, MinorSuit, Suit};

#[test]
fn suits_have_their_colours() {
    assert_eq!(suit_color(Suit::Minor(MinorSuit::Pentacles)), BaseColor::Yellow);
    assert_eq!(suit_color(Suit::Minor(MinorSuit::Cups)), BaseColor::Red);
    assert_eq!(suit_color(Suit::Minor(MinorSuit::Wands)), BaseColor::Green);
    assert_eq!(suit_color(Suit::Minor(MinorSuit::Swords)), BaseColor::Cyan);
    assert_eq!(suit_color(Suit::MajorArcana), BaseColor::Magenta);
}

#[test]
fn the_palette_has_sixteen_colours() {
    assert_eq!(color_xp_to_siv(0, 0, 0), Some(TermColor::Dark(BaseColor::Black)));
    assert_eq!(color_xp_to_siv(170, 0, 0), Some(TermColor::Dark(BaseColor::Red)));
    assert_eq!(color_xp_to_siv(0, 170, 0), Some(TermColor::Dark(BaseColor::Green)));
    assert_eq!(color_xp_to_siv(170, 85, 0), Some(TermColor::Dark(BaseColor::Yellow)));
    assert_eq!(color_xp_to_siv(0, 0, 170), Some(TermColor::Dark(BaseColor::Blue)));
    assert_eq!(color_xp_to_siv(170, 0, 170), Some(TermColor::Dark(BaseColor::Magenta)));
    assert_eq!(color_xp_to_siv(0, 170, 170), Some(TermColor::Dark(BaseColor::Cyan)));
    assert_eq!(color_xp_to_siv(170, 170, 170), Some(TermColor::Dark(BaseColor::White)));
    assert_eq!(color_xp_to_siv(85, 85, 85), Some(TermColor::Light(BaseColor::Black)));
    assert_eq!(color_xp_to_siv(255, 85, 85), Some(TermColor::Light(BaseColor::Red)));
    assert_eq!(color_xp_to_siv(85, 255, 85), Some(TermColor::Light(BaseColor::Green)));
    assert_eq!(color_xp_to_siv(255, 255, 85), Some(TermColor::Light(BaseColor::Yellow)));
    assert_eq!(color_xp_to_siv(85, 85, 255), Some(TermColor::Light(BaseColor::Blue)));
    assert_eq!(color_xp_to_siv(255, 85, 255), Some(TermColor::Light(BaseColor::Magenta)));
    assert_eq!(color_xp_to_siv(85, 255, 255), Some(TermColor::Light(BaseColor::Cyan)));
    assert_eq!(color_xp_to_siv(255, 255, 255), Some(TermColor::Light(BaseColor::White)));
    assert_eq!(color_xp_to_siv(1, 2, 3), None);
    assert_eq!(color_xp_to_siv(170, 170, 0), None);
}

#[test]
fn borders_are_lit_by_rule() {
    let suit = BaseColor::Red;
    assert_eq!(CardBorderColor::HilightIfThickBorder.resolve(true, suit), TermColor::Light(suit));
    assert_eq!(CardBorderColor::HilightIfThickBorder.resolve(false, suit), TermColor::Dark(suit));
    assert_eq!(CardBorderColor::AlwaysHilight.resolve(false, suit), TermColor::Light(suit));
    assert_eq!(CardBorderColor::NeverHilight.resolve(true, suit), TermColor::Dark(suit));
    let custom = TermColor::Dark(BaseColor::White);
    assert_eq!(CardBorderColor::Custom(custom).resolve(true, suit), custom);
    assert_eq!(
        CardBorderColor::for_column_card(true, true),
        CardBorderColor::Custom(TermColor::Light(BaseColor::White))
    );
    assert_eq!(CardBorderColor::for_column_card(false, true), CardBorderColor::AlwaysHilight);
    assert_eq!(
        CardBorderColor::for_column_card(false, false),
        CardBorderColor::HilightIfThickBorder
    );
}

#[test]
fn cards_have_their_place_on_the_sheet() {
    assert_eq!(atlas_cell(&Card::new(Suit::Minor(MinorSuit::Pentacles), 1)), (0, 0));
    assert_eq!(atlas_cell(&Card::new(Suit::Minor(MinorSuit::Cups), 13)), (12, 1));
    assert_eq!(atlas_cell(&Card::new(Suit::Minor(MinorSuit::Wands), 7)), (6, 3));
    assert_eq!(atlas_cell(&Card::new(Suit::MajorArcana, 0)), (0, 4));
    assert_eq!(atlas_cell(&Card::new(Suit::MajorArcana, 12)), (12, 4));
    assert_eq!(atlas_cell(&Card::new(Suit::MajorArcana, 13)), (0, 5));
    assert_eq!(atlas_cell(&Card::new(Suit::MajorArcana, 21)), (8, 5));
    assert_eq!(atlas_source(&Card::new(Suit::Minor(MinorSuit::Pentacles), 1), 0, 0), (1, 1));
    assert_eq!(atlas_source(&Card::new(Suit::Minor(MinorSuit::Cups), 13), 10, 9), (155, 21));
    assert_eq!(atlas_source(&Card::new(Suit::MajorArcana, 21), 3, 4), (100, 60));
}

#[test]
fn the_topmost_cell_that_shows_is_found() {
    assert_eq!(top_visible(&vec![]), None);
    assert_eq!(top_visible(&vec![None, None]), None);
    assert_eq!(top_visible(&vec![Some((65, false))]), Some(0));
    assert_eq!(top_visible(&vec![Some((65, false)), Some((66, false))]), Some(1));
    assert_eq!(top_visible(&vec![Some((65, false)), Some((66, true))]), Some(0));
    assert_eq!(top_visible(&vec![Some((65, false)), Some((32, false)), None]), Some(0));
    assert_eq!(top_visible(&vec![Some((32, false)), Some((66, true))]), None);
}

fn sheet(marks: &[(usize, u32)], len: usize) -> Vec<u32> {
    let mut cells = vec![32u32; len];
    for (at, ch) in marks {
        cells[*at] = *ch;
    }
    cells
}

fn all_marks() -> Vec<(usize, u32)> {
    let mut marks = vec![
        (3, 'L' as u32),
        (7, 'R' as u32),
        (10, 0x0F),
        (11, 0x9D),
        (12, 0x18),
        (13, '%' as u32),
        (14, 'S' as u32),
        (59, 'X' as u32),
    ];
    for column in 0..11usize {
        marks.push((20 + 2 * column, 'a' as u32 + column as u32));
    }
    marks
}

#[test]
fn a_layout_is_read_off_the_marks() {
    let layout = read_layout(&sheet(&all_marks(), 60), 6).unwrap();
    assert_eq!(layout.maj_fndn_left, (0, 3));
    assert_eq!(layout.maj_fndn_right, (1, 1));
    assert_eq!(layout.min_fndn_poses, [(1, 4), (1, 5), (2, 0), (2, 1)]);
    assert_eq!(layout.min_fndn_storage, (2, 2));
    for column in 0..11usize {
        let at = 20 + 2 * column;
        assert_eq!(layout.column_poses[column], (at / 6, at % 6));
    }
    assert_eq!(layout.board_size, (10, 6));
}

#[test]
fn the_last_mark_of_a_kind_counts() {
    let mut marks = all_marks();
    marks.push((50, 'L' as u32));
    marks.push((51, 'c' as u32 + 256));
    let layout = read_layout(&sheet(&marks, 60), 6).unwrap();
    assert_eq!(layout.maj_fndn_left, (8, 2));
    assert_eq!(layout.column_poses[2], (8, 3));
    assert_eq!(layout.column_poses[1], (3, 4));
}

#[test]
fn a_layout_needs_every_mark() {
    for missing in 0..all_marks().len() {
        let mut marks = all_marks();
        marks.remove(missing);
        assert_eq!(read_layout(&sheet(&marks, 60), 6), None);
    }
    assert_eq!(read_layout(&vec![], 1), None);
}
