use gnobbler::{
    get_all_chunks, get_layer, get_tile, parse_chunk, parse_i16, Enemy, EnemyType, LevelError,
    Vec2i, World, TILE_SIZE,
};

fn csv(cells: &[(usize, i16)]) -> String {
    let mut ids = vec![0i16; 256];
    for &(i, id) in cells {
        ids[i] = id;
    }
    ids.iter().map(|v| v.to_string()).collect::<Vec<_>>().join(",\n")
}

fn chunk_xml(x: i16, y: i16, cells: &[(usize, i16)]) -> String {
    format!("<chunk x=\"{}\" y=\"{}\" width=\"16\" height=\"16\">\n{}\n</chunk>\n", x, y, csv(cells))
}

fn layer_xml(name: &str, chunks: &str) -> String {
    format!(
        "<layer id=\"1\" name=\"{}\" width=\"16\" height=\"16\">\n<data encoding=\"csv\">\n{}</data>\n</layer>\n",
        name, chunks
    )
}

fn level_xml(collision: &str, special: &str) -> String {
    format!(
        "<?xml version=\"1.0\"?>\n<map>\n{}{}{}{}</map>\n",
        layer_xml("background", ""),
        layer_xml("collision", collision),
        layer_xml("detail", ""),
        layer_xml("special", special)
    )
}

#[test]
fn numbers() {
    assert_eq!(parse_i16(b"0"), Some(0));
    assert_eq!(parse_i16(b"49"), Some(49));
    assert_eq!(parse_i16(b"-16"), Some(-16));
    assert_eq!(parse_i16(b"+7"), Some(7));
    assert_eq!(parse_i16(b"32767"), Some(32767));
    assert_eq!(parse_i16(b"-32768"), Some(-32768));
    assert_eq!(parse_i16(b"32768"), None);
    assert_eq!(parse_i16(b"-32769"), None);
    assert_eq!(parse_i16(b"0000000000012"), Some(12));
    assert_eq!(parse_i16(b""), None);
    assert_eq!(parse_i16(b"-"), None);
    assert_eq!(parse_i16(b"1a"), None);
    assert_eq!(parse_i16(b" 1"), None);
}

#[test]
fn chunk_record() {
    let text = chunk_xml(-16, 32, &[(0, 50), (17, 3), (255, 113)]);
    let text = text.trim_end_matches("</chunk>\n");
    let c = parse_chunk(text.as_bytes()).unwrap();
    assert_eq!((c.x, c.y), (-16, 32));
    assert_eq!(c.tiles.len(), 256);
    assert_eq!(c.tiles[0], 50);
    assert_eq!(c.tiles[17], 3);
    assert_eq!(c.tiles[255], 113);
    assert_eq!(c.tiles[1], 0);
}

#[test]
fn chunk_record_errors() {
    assert_eq!(parse_chunk(b"no tag here").unwrap_err(), LevelError::MissingChunkTag);
    assert_eq!(parse_chunk(b"<chunk x=\"0\"").unwrap_err(), LevelError::MissingChunkTag);
    let short = format!("<chunk x=\"0\" y=\"0\">{}", vec!["1"; 255].join(","));
    assert_eq!(parse_chunk(short.as_bytes()).unwrap_err(), LevelError::BadTiles);
    let bad = format!("<chunk x=\"0\" y=\"0\">{},z", vec!["1"; 255].join(","));
    assert_eq!(parse_chunk(bad.as_bytes()).unwrap_err(), LevelError::BadTiles);
    let nox = format!("<chunk y=\"0\">{}", vec!["1"; 256].join(","));
    assert_eq!(parse_chunk(nox.as_bytes()).unwrap_err(), LevelError::BadCoordinate);
    let bigx = format!("<chunk x=\"40000\" y=\"0\">{}", vec!["1"; 256].join(","));
    assert_eq!(parse_chunk(bigx.as_bytes()).unwrap_err(), LevelError::BadCoordinate);
    let extra = format!("<chunk x=\"0\" y=\"0\">{}", vec![" 2 "; 300].join(","));
    assert_eq!(parse_chunk(extra.as_bytes()).unwrap().tiles, vec![2; 256]);
}

#[test]
fn layer_text_and_chunks() {
    let chunks = format!("{}{}", chunk_xml(0, 0, &[(1, 50)]), chunk_xml(16, 0, &[(2, 51)]));
    let xml = level_xml(&chunks, "");
    let text = get_layer(xml.as_bytes(), b"collision").unwrap();
    let layer = get_all_chunks(text).unwrap();
    assert_eq!(get_tile(&layer, 1, 0), 50);
    assert_eq!(get_tile(&layer, 18, 0), 51);
    assert_eq!(get_tile(&layer, 40, 0), 0);
    assert_eq!(get_layer(xml.as_bytes(), b"missing").unwrap_err(), LevelError::MissingLayer);
}

#[test]
fn later_chunk_replaces_earlier() {
    let chunks = format!("{}{}", chunk_xml(0, 0, &[(1, 50)]), chunk_xml(0, 0, &[(1, 60)]));
    let layer = get_all_chunks(chunks.as_bytes()).unwrap();
    assert_eq!(get_tile(&layer, 1, 0), 60);
}

#[test]
fn level_from_data() {
    let collision = chunk_xml(0, 0, &[(5 * 16, 50), (9 * 16, 50), (3 + 10 * 16, 50)]);
    let special = chunk_xml(0, 0, &[(2 + 3 * 16, 1), (4 + 3 * 16, 1), (7 + 2 * 16, 2), (8, 5)]);
    let xml = level_xml(&collision, &special);
    let world = World::from_data(&xml).unwrap();
    assert_eq!(get_tile(&world.collision, 0, 5), 50);

    let (state, player) = world.load_level();
    let mut coins = state.coins.clone();
    coins.sort();
    assert_eq!(coins, vec![(2, 3), (4, 3)]);
    assert_eq!(state.enemies.len(), 1);
    let e: Enemy = state.enemies[0];
    assert_eq!(e.pos, Vec2i::new(7 * TILE_SIZE, 2 * TILE_SIZE));
    assert_eq!(e.ty, EnemyType::Snail);
    assert!(e.facing_left && !e.loaded);
    assert!(state.broken_tiles.is_empty());
    assert_eq!(state.taken_coins, 0);

    assert_eq!(player.pos, Vec2i::new(TILE_SIZE, 4 * TILE_SIZE));
    assert!(player.alive());

    let coin = world.get_interactable_spawn(0).unwrap();
    assert!(coin == Vec2i::new(2 * TILE_SIZE, 3 * TILE_SIZE) || coin == Vec2i::new(4 * TILE_SIZE, 3 * TILE_SIZE));
    assert_eq!(world.get_interactable_spawn(1), Some(Vec2i::new(7 * TILE_SIZE, 2 * TILE_SIZE)));
    assert_eq!(world.get_interactable_spawn(30), None);
    assert_eq!(world.get_interactable_spawn(i16::MAX), None);
}

#[test]
fn level_missing_layer() {
    let xml = format!("<map>{}</map>", layer_xml("collision", ""));
    assert_eq!(World::from_data(&xml).unwrap_err(), LevelError::MissingLayer);
}

#[test]
fn level_bad_special_chunk() {
    let xml = level_xml("", "<chunk x=\"0\" y=\"0\">1,2,3</chunk>");
    assert_eq!(World::from_data(&xml).unwrap_err(), LevelError::BadTiles);
}

#[test]
fn spawn_falls_back_without_left_column() {
    let collision = chunk_xml(16, 0, &[(0, 50)]);
    let xml = level_xml(&collision, "");
    let world = World::from_data(&xml).unwrap();
    assert_eq!(world.get_player_spawn(), Vec2i::new(TILE_SIZE, (i16::MAX as i32 - 1) * TILE_SIZE));
}

#[test]
fn spawn_above_topmost_solid_of_left_column() {
    let chunks = format!(
        "{}{}",
        chunk_xml(0, 0, &[(3 * 16, 50), (2 * 16, 20), (1, 50)]),
        chunk_xml(0, -16, &[(14 * 16, 55)])
    );
    let xml = level_xml(&chunks, "");
    let world = World::from_data(&xml).unwrap();
    assert_eq!(world.get_player_spawn(), Vec2i::new(TILE_SIZE, -3 * TILE_SIZE));
}

#[test]
fn each_marked_cell_listed_once() {
    let special = format!(
        "{}{}",
        chunk_xml(0, 0, &[(1, 1), (2, 2), (3, 2)]),
        chunk_xml(16, 0, &[(0, 1), (5, 2)])
    );
    let xml = level_xml("", &special);
    let world = World::from_data(&xml).unwrap();
    let (state, _) = world.load_level();
    let mut coins = state.coins.clone();
    coins.sort();
    assert_eq!(coins, vec![(1, 0), (16, 0)]);
    let mut snails: Vec<(i32, i32)> = state.enemies.iter().map(|e| (e.pos.x, e.pos.y)).collect();
    snails.sort();
    assert_eq!(snails, vec![(2 * TILE_SIZE, 0), (3 * TILE_SIZE, 0), (21 * TILE_SIZE, 0)]);
}
