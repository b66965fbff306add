//! Spawning metadata of the enemy templates, and puzzle difficulty.

use vstd::prelude::*;

verus! {

/// Metadata about a template: what spawning it costs, on which floors it may
/// appear, and how many may share a room.
#[derive(Clone, Copy, Debug, PartialEq, Eq, Structural)]
pub struct TempMeta {
    /// Cost to spawn the enemy in a room.
    pub cost: u32,
    /// First floor it can spawn on.
    pub floor_min: u32,
    /// Last floor it can spawn on.
    pub floor_max: u32,
    /// Maximum number of this entity in a room.
    pub max: u32,
}

/// The metadata of each enemy template, by its character.
pub open spec fn metadata_table() -> Seq<(char, TempMeta)> {
    seq![
        ('e', TempMeta { cost: 12, floor_min: 0, floor_max: 0, max: 3 }),
        ('f', TempMeta { cost: 40, floor_min: 4, floor_max: 4, max: 1 }),
        ('h', TempMeta { cost: 17, floor_min: 0, floor_max: 0, max: 2 }),
        ('l', TempMeta { cost: 50, floor_min: 3, floor_max: 3, max: 1 }),
        ('k', TempMeta { cost: 29, floor_min: 1, floor_max: 2, max: 2 }),
        ('n', TempMeta { cost: 29, floor_min: 2, floor_max: 2, max: 2 }),
        ('b', TempMeta { cost: 39, floor_min: 3, floor_max: 3, max: 1 }),
        ('r', TempMeta { cost: 19, floor_min: 1, floor_max: 2, max: 3 }),
        ('w', TempMeta { cost: 24, floor_min: 1, floor_max: 2, max: 2 }),
        ('o', TempMeta { cost: 15, floor_min: 0, floor_max: 0, max: 3 }),
        ('a', TempMeta { cost: 9999, floor_min: 2, floor_max: 3, max: 5 }),
        ('p', TempMeta { cost: 9999, floor_min: 4, floor_max: 4, max: 5 }),
        ('s', TempMeta { cost: 42, floor_min: 2, floor_max: 3, max: 2 }),
        ('m', TempMeta { cost: 65, floor_min: 4, floor_max: 4, max: 1 }),
        ('d', TempMeta { cost: 45, floor_min: 4, floor_max: 4, max: 2 }),
        ('x', TempMeta { cost: 50, floor_min: 1, floor_max: 3, max: 2 }),
        ('u', TempMeta { cost: 32, floor_min: 4, floor_max: 4, max: 1 }),
        ('i', TempMeta { cost: 15, floor_min: 0, floor_max: 1, max: 3 }),
        ('c', TempMeta { cost: 40, floor_min: 2, floor_max: 3, max: 2 }),
        ('v', TempMeta { cost: 32, floor_min: 2, floor_max: 3, max: 2 }),
        ('g', TempMeta { cost: 35, floor_min: 2, floor_max: 3, max: 1 }),
        ('q', TempMeta { cost: 50, floor_min: 3, floor_max: 3, max: 1 }),
        ('j', TempMeta { cost: 55, floor_min: 4, floor_max: 4, max: 1 }),
        ('y', TempMeta { cost: 33, floor_min: 4, floor_max: 4, max: 1 }),
        ('z', TempMeta { cost: 55, floor_min: 4, floor_max: 4, max: 1 }),
        ('t', TempMeta { cost: 40, floor_min: 4, floor_max: 4, max: 1 }),
        ('L', TempMeta { cost: 50, floor_min: 1, floor_max: 1, max: 1 }),
        ('O', TempMeta { cost: 50, floor_min: 2, floor_max: 2, max: 1 }),
        ('K', TempMeta { cost: 50, floor_min: 1, floor_max: 1, max: 1 }),
        ('B', TempMeta { cost: 50, floor_min: 3, floor_max: 3, max: 1 }),
        ('Q', TempMeta { cost: 50, floor_min: 0, floor_max: 0, max: 1 }),
        ('E', TempMeta { cost: 50, floor_min: 0, floor_max: 0, max: 1 }),
        ('V', TempMeta { cost: 50, floor_min: 2, floor_max: 2, max: 1 }),
        ('R', TempMeta { cost: 50, floor_min: 3, floor_max: 3, max: 1 }),
        ('\u{3a9}', TempMeta { cost: 100, floor_min: 5, floor_max: 5, max: 1 })
    ]
}

/// Returns the metadata of each enemy template, by its character.
pub fn get_metadata() -> (r: Vec<(char, TempMeta)>)
    ensures
        r@ == metadata_table(),
{
    let mut v: Vec<(char, TempMeta)> = Vec::new();
    v.push(('e', TempMeta { cost: 12, floor_min: 0, floor_max: 0, max: 3 }));
    v.push(('f', TempMeta { cost: 40, floor_min: 4, floor_max: 4, max: 1 }));
    v.push(('h', TempMeta { cost: 17, floor_min: 0, floor_max: 0, max: 2 }));
    v.push(('l', TempMeta { cost: 50, floor_min: 3, floor_max: 3, max: 1 }));
    v.push(('k', TempMeta { cost: 29, floor_min: 1, floor_max: 2, max: 2 }));
    v.push(('n', TempMeta { cost: 29, floor_min: 2, floor_max: 2, max: 2 }));
    v.push(('b', TempMeta { cost: 39, floor_min: 3, floor_max: 3, max: 1 }));
    v.push(('r', TempMeta { cost: 19, floor_min: 1, floor_max: 2, max: 3 }));
    v.push(('w', TempMeta { cost: 24, floor_min: 1, floor_max: 2, max: 2 }));
    v.push(('o', TempMeta { cost: 15, floor_min: 0, floor_max: 0, max: 3 }));
    v.push(('a', TempMeta { cost: 9999, floor_min: 2, floor_max: 3, max: 5 }));
    v.push(('p', TempMeta { cost: 9999, floor_min: 4, floor_max: 4, max: 5 }));
    v.push(('s', TempMeta { cost: 42, floor_min: 2, floor_max: 3, max: 2 }));
    v.push(('m', TempMeta { cost: 65, floor_min: 4, floor_max: 4, max: 1 }));
    v.push(('d', TempMeta { cost: 45, floor_min: 4, floor_max: 4, max: 2 }));
    v.push(('x', TempMeta { cost: 50, floor_min: 1, floor_max: 3, max: 2 }));
    v.push(('u', TempMeta { cost: 32, floor_min: 4, floor_max: 4, max: 1 }));
    v.push(('i', TempMeta { cost: 15, floor_min: 0, floor_max: 1, max: 3 }));
    v.push(('c', TempMeta { cost: 40, floor_min: 2, floor_max: 3, max: 2 }));
    v.push(('v', TempMeta { cost: 32, floor_min: 2, floor_max: 3, max: 2 }));
    v.push(('g', TempMeta { cost: 35, floor_min: 2, floor_max: 3, max: 1 }));
    v.push(('q', TempMeta { cost: 50, floor_min: 3, floor_max: 3, max: 1 }));
    v.push(('j', TempMeta { cost: 55, floor_min: 4, floor_max: 4, max: 1 }));
    v.push(('y', TempMeta { cost: 33, floor_min: 4, floor_max: 4, max: 1 }));
    v.push(('z', TempMeta { cost: 55, floor_min: 4, floor_max: 4, max: 1 }));
    v.push(('t', TempMeta { cost: 40, floor_min: 4, floor_max: 4, max: 1 }));
    v.push(('L', TempMeta { cost: 50, floor_min: 1, floor_max: 1, max: 1 }));
    v.push(('O', TempMeta { cost: 50, floor_min: 2, floor_max: 2, max: 1 }));
    v.push(('K', TempMeta { cost: 50, floor_min: 1, floor_max: 1, max: 1 }));
    v.push(('B', TempMeta { cost: 50, floor_min: 3, floor_max: 3, max: 1 }));
    v.push(('Q', TempMeta { cost: 50, floor_min: 0, floor_max: 0, max: 1 }));
    v.push(('E', TempMeta { cost: 50, floor_min: 0, floor_max: 0, max: 1 }));
    v.push(('V', TempMeta { cost: 50, floor_min: 2, floor_max: 2, max: 1 }));
    v.push(('R', TempMeta { cost: 50, floor_min: 3, floor_max: 3, max: 1 }));
    v.push(('\u{3a9}', TempMeta { cost: 100, floor_min: 5, floor_max: 5, max: 1 }));
    assert(v@ =~= metadata_table());
    v
}

/// The subjective difficulty of a puzzle.
#[derive(Clone, Copy, Debug, PartialEq, Eq, Structural)]
pub enum Difficulty {
    Beginner,
    Intermediate,
    Advanced,
    Extreme,
    Bonus,
}

/// The difficulty that a one-letter code names.
pub open spec fn difficulty_of(c: char) -> Option<Difficulty> {
    if c == 'B' {
        Some(Difficulty::Beginner)
    } else if c == 'I' {
        Some(Difficulty::Intermediate)
    } else if c == 'A' {
        Some(Difficulty::Advanced)
    } else if c == 'E' {
        Some(Difficulty::Extreme)
    } else if c == 'b' {
        Some(Difficulty::Bonus)
    } else {
        None
    }
}

impl Difficulty {
    /// The difficulty that a code names: `B`, `I`, `A`, `E` or `b`.
    pub fn from_code(code: &Vec<char>) -> (r: Option<Difficulty>)
        ensures
            code@.len() == 1 ==> r == difficulty_of(code@[0]),
            code@.len() != 1 ==> r is None,
    {
        if code.len() != 1 {
            return None;
        }
        let c = code[0];
        if c == 'B' {
            Some(Difficulty::Beginner)
        } else if c == 'I' {
            Some(Difficulty::Intermediate)
        } else if c == 'A' {
            Some(Difficulty::Advanced)
        } else if c == 'E' {
            Some(Difficulty::Extreme)
        } else if c == 'b' {
            Some(Difficulty::Bonus)
        } else {
            None
        }
    }

    /// The difficulty's name.
    pub fn label(&self) -> (r: &'static str)
        ensures
            *self == Difficulty::Beginner ==> r@ == "Beginner"@,
            *self == Difficulty::Intermediate ==> r@ == "Intermediate"@,
            *self == Difficulty::Advanced ==> r@ == "Advanced"@,
            *self == Difficulty::Extreme ==> r@ == "Extreme"@,
            *self == Difficulty::Bonus ==> r@ == "Bonus"@,
    {
        match self {
            Difficulty::Beginner => "Beginner",
            Difficulty::Intermediate => "Intermediate",
            Difficulty::Advanced => "Advanced",
            Difficulty::Extreme => "Extreme",
            Difficulty::Bonus => "Bonus",
        }
    }
}

/// Something that can occur when a menu element is activated.
#[derive(Clone, Copy, Debug, PartialEq, Eq, Structural)]
pub enum Event {
    /// Quit the current runtime with a code.
    Exit(u32),
    /// Change to the scene at the given index.
    ChangeScene(usize),
    /// Broadcast some data to be read by other elements.
    Broadcast(usize, usize),
    /// Do nothing.
    Null,
}

} // verus!
