use vstd::prelude::*;

verus! {

/// The rows of each glyph of a catalog, as characters.
pub open spec fn catalog_rows(c: Seq<Vec<&str>>) -> Seq<Seq<Seq<char>>> {
    c.map_values(|p: Vec<&str>| p@.map_values(|s: &str| s@))
}

/// Oscillators: blinker, toad, traffic light, beacon, pulsar, I-column.
pub open spec fn oscillator_glyphs() -> Seq<Seq<Seq<char>>> {
    seq![
        seq!["XXX"@],
        seq![" XXX"@, "XXX "@],
        seq!["  XXX  "@, "       "@, "X     X"@, "X     X"@, "X     X"@, "       "@, "  XXX  "@],
        seq!["XX  "@, "XX  "@, "  XX"@, "  XX"@],
        seq!["  XXX   XXX  "@, "             "@, "X    X X    X"@, "X    X X    X"@, "X    X X    X"@, "  XXX   XXX  "@, "             "@, "  XXX   XXX  "@, "X    X X    X"@, "X    X X    X"@, "X    X X    X"@, "             "@, "  XXX   XXX  "@],
        seq!["XXX"@, "X X"@, "XXX"@, "XXX"@, "XXX"@, "XXX"@, "X X"@, "XXX"@],
    ]
}

/// Spaceships: glider, lightweight spaceship.
pub open spec fn spaceship_glyphs() -> Seq<Seq<Seq<char>>> {
    seq![
        seq![" X "@, "  X"@, "XXX"@],
        seq!["X  X "@, "    X"@, "X   X"@, " XXXX"@],
    ]
}

/// Still lifes: block, loaf, beehive, ship, boat, flower, pond.
pub open spec fn still_life_glyphs() -> Seq<Seq<Seq<char>>> {
    seq![
        seq!["XX"@, "XX"@],
        seq![" XX "@, "X  X"@, " X X"@, "  X "@],
        seq![" XX "@, "X  X"@, " XX "@],
        seq![" XXX"@, "X  X"@, "XXX "@],
        seq!["XX "@, "X X"@, " X "@],
        seq![" X "@, "X X"@, " X "@],
        seq![" X "@, "X X"@, " X "@],
    ]
}

/// Oscillators: blinker, toad, traffic light, beacon, pulsar, I-column.
pub fn oscillators() -> (r: Vec<Vec<&'static str>>)
    ensures
        catalog_rows(r@) == oscillator_glyphs(),
{
    let r = vec![
        vec!["XXX"],
        vec![" XXX", "XXX "],
        vec!["  XXX  ", "       ", "X     X", "X     X", "X     X", "       ", "  XXX  "],
        vec!["XX  ", "XX  ", "  XX", "  XX"],
        vec!["  XXX   XXX  ", "             ", "X    X X    X", "X    X X    X", "X    X X    X", "  XXX   XXX  ", "             ", "  XXX   XXX  ", "X    X X    X", "X    X X    X", "X    X X    X", "             ", "  XXX   XXX  "],
        vec!["XXX", "X X", "XXX", "XXX", "XXX", "XXX", "X X", "XXX"],
    ];
    assert(catalog_rows(r@) =~~= oscillator_glyphs());
    r
}

/// Spaceships: glider, lightweight spaceship.
pub fn spaceships() -> (r: Vec<Vec<&'static str>>)
    ensures
        catalog_rows(r@) == spaceship_glyphs(),
{
    let r = vec![
        vec![" X ", "  X", "XXX"],
        vec!["X  X ", "    X", "X   X", " XXXX"],
    ];
    assert(catalog_rows(r@) =~~= spaceship_glyphs());
    r
}

/// Still lifes: block, loaf, beehive, ship, boat, flower, pond.
pub fn still_lifes() -> (r: Vec<Vec<&'static str>>)
    ensures
        catalog_rows(r@) == still_life_glyphs(),
{
    let r = vec![
        vec!["XX", "XX"],
        vec![" XX ", "X  X", " X X", "  X "],
        vec![" XX ", "X  X", " XX "],
        vec![" XXX", "X  X", "XXX "],
        vec!["XX ", "X X", " X "],
        vec![" X ", "X X", " X "],
        vec![" X ", "X X", " X "],
    ];
    assert(catalog_rows(r@) =~~= still_life_glyphs());
    r
}

} // verus!
