use teletarot::frame::BoxSide;

#[test]
fn thin_and_thick_boxes_have_their_characters() {
    assert_eq!(BoxSide::NWCorner.box_drawing_char(true), '╔');
    assert_eq!(BoxSide::Horz.box_drawing_char(true), '═');
    assert_eq!(BoxSide::NECorner.box_drawing_char(true), '╗');
    assert_eq!(BoxSide::Vert.box_drawing_char(true), '║');
    assert_eq!(BoxSide::SWCorner.box_drawing_char(true), '╚');
    assert_eq!(BoxSide::SECorner.box_drawing_char(true), '╝');
    assert_eq!(BoxSide::NWCorner.box_drawing_char(false), '┌');
    assert_eq!(BoxSide::Horz.box_drawing_char(false), '─');
    assert_eq!(BoxSide::NECorner.box_drawing_char(false), '┐');
    assert_eq!(BoxSide::Vert.box_drawing_char(false), '│');
    assert_eq!(BoxSide::SWCorner.box_drawing_char(false), '└');
    assert_eq!(BoxSide::SECorner.box_drawing_char(false), '┘');
}

#[test]
fn cells_of_the_outline_know_their_part() {
    assert_eq!(BoxSide::from_delta_in_box(0, 0, 4, 3), BoxSide::NWCorner);
    assert_eq!(BoxSide::from_delta_in_box(1, 0, 4, 3), BoxSide::Horz);
    assert_eq!(BoxSide::from_delta_in_box(2, 0, 4, 3), BoxSide::Horz);
    assert_eq!(BoxSide::from_delta_in_box(3, 0, 4, 3), BoxSide::NECorner);
    assert_eq!(BoxSide::from_delta_in_box(0, 1, 4, 3), BoxSide::Vert);
    assert_eq!(BoxSide::from_delta_in_box(3, 1, 4, 3), BoxSide::Vert);
    assert_eq!(BoxSide::from_delta_in_box(0, 2, 4, 3), BoxSide::SWCorner);
    assert_eq!(BoxSide::from_delta_in_box(1, 2, 4, 3), BoxSide::Horz);
    assert_eq!(BoxSide::from_delta_in_box(3, 2, 4, 3), BoxSide::SECorner);
    assert_eq!(BoxSide::from_delta_in_box(0, 0, 1, 1), BoxSide::NWCorner);
}

#[test]
fn the_outline_runs_row_by_row() {
    assert_eq!(
        BoxSide::box_edges(3, 4),
        vec![(0, 0), (1, 0), (2, 0), (0, 1), (2, 1), (0, 2), (2, 2), (0, 3), (1, 3), (2, 3)]
    );
    assert_eq!(BoxSide::box_edges(2, 1), vec![(0, 0), (1, 0)]);
    assert_eq!(BoxSide::box_edges(1, 3), vec![(0, 0), (0, 1), (0, 1), (0, 2)]);
    assert_eq!(BoxSide::box_edges(5, 0), vec![]);
    assert_eq!(BoxSide::box_edges(0, 2), vec![]);
    assert_eq!(BoxSide::box_edges(0, 0), vec![]);
    let drawn: String = BoxSide::box_edges(3, 2)
        .into_iter()
        .map(|(x, y)| BoxSide::from_delta_in_box(x, y, 3, 2).box_drawing_char(false))
        .collect();
    assert_eq!(drawn, "┌─┐└─┘");
}
