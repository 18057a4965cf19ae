use resource_monitor::graph::{block_graph, braille_graph, GRAPH_CHAR_WIDTH};

#[test]
fn block_graph_maps_ends_and_middle() {
    let g = block_graph(&[0, 5000, 10000]);
    assert_eq!(g, " \u{2584}\u{2588}");
}

#[test]
fn block_graph_one_glyph_per_sample() {
    let data = [0u32, 1250, 2500, 3750, 5000, 6250, 7500, 8750, 10000];
    let g: Vec<char> = block_graph(&data).chars().collect();
    assert_eq!(g.len(), data.len());
    assert_eq!(
        g,
        vec![' ', '\u{2581}', '\u{2582}', '\u{2583}', '\u{2584}', '\u{2585}', '\u{2586}', '\u{2587}', '\u{2588}']
    );
}

#[test]
fn block_graph_rounds_half_up_and_clamps() {
    assert_eq!(block_graph(&[624, 625, 20000]), " \u{2581}\u{2588}");
    assert_eq!(block_graph(&[]), "");
}

#[test]
fn braille_graph_empty_inputs() {
    assert_eq!(braille_graph(&[], 2), "");
    assert_eq!(braille_graph(&[10, 20], 0), "");
}

#[test]
fn braille_graph_flat_line_at_bottom() {
    let g = braille_graph(&[0, 0, 0, 0], 2);
    let rows: Vec<&str> = g.split('\n').collect();
    assert_eq!(rows.len(), 2);
    assert_eq!(rows[0], " ".repeat(GRAPH_CHAR_WIDTH));
    assert_eq!(rows[1], "\u{28C0}".repeat(GRAPH_CHAR_WIDTH));
}

#[test]
fn braille_graph_flat_line_at_top() {
    let g = braille_graph(&[10000, 10000], 3);
    let rows: Vec<&str> = g.split('\n').collect();
    assert_eq!(rows.len(), 3);
    assert_eq!(rows[0], "\u{2809}".repeat(GRAPH_CHAR_WIDTH));
    assert_eq!(rows[1], " ".repeat(GRAPH_CHAR_WIDTH));
    assert_eq!(rows[2], " ".repeat(GRAPH_CHAR_WIDTH));
}

#[test]
fn braille_graph_flat_line_every_row_one_pattern() {
    for v in [0u32, 1234, 5000, 7777, 10000] {
        let g = braille_graph(&[v; 28], 4);
        for row in g.split('\n') {
            let chars: Vec<char> = row.chars().collect();
            assert_eq!(chars.len(), GRAPH_CHAR_WIDTH);
            assert!(chars.iter().all(|c| *c == chars[0]));
        }
    }
}

#[test]
fn braille_graph_single_sample_is_centred() {
    let g: Vec<char> = braille_graph(&[5000], 1).chars().collect();
    assert_eq!(g.len(), GRAPH_CHAR_WIDTH);
    for (i, c) in g.iter().enumerate() {
        if i == 13 {
            assert_eq!(*c, '\u{2820}');
        } else {
            assert_eq!(*c, ' ');
        }
    }
}

#[test]
fn braille_graph_vertical_step_is_joined() {
    // Two samples: bottom-left to top-right on a canvas of one row.
    let g: Vec<char> = braille_graph(&[0, 10000], 1).chars().collect();
    assert_eq!(g.len(), GRAPH_CHAR_WIDTH);
    // The first cell holds the start dot at the bottom left.
    assert_eq!((g[0] as u32 - 0x2800) & 0x40, 0x40);
    // The last cell holds the end dot at the top right.
    assert_eq!((g[27] as u32 - 0x2800) & 0x08, 0x08);
    // No cell of the line is blank.
    assert!(g.iter().all(|c| *c != ' '));
}
