//! What is asked of a FEN text before the `chess` crate reads it.
//!
//! The `chess` crate looks up the king of the side to move while it builds a
//! board, and only afterwards tests that each side has a king.  So no text is
//! handed to it unless both kings stand on the board that the text describes.
//! This module reads the first field of a FEN text the way that crate does,
//! with a cursor that wraps around at the edges of the board and men that
//! replace what stood on their square, and tells whether both kings stand at
//! the end.
//!
//! The crate also tests the length of the fourth field in bytes before it
//! reads two characters of it, so no text is handed to it whose fourth field
//! is one character of several bytes.

use vstd::prelude::*;
use vstd::string::*;

verus! {

/// A square without a king.
pub const NO_KING: u8 = 0;

/// A square with the white king.
pub const WHITE_KING: u8 = 1;

/// A square with the black king.
pub const BLACK_KING: u8 = 2;

/// How far a digit of the first field moves the cursor along the rank.
pub open spec fn digit_of(c: char) -> Option<int> {
    if c == '1' {
        Some(1)
    } else if c == '2' {
        Some(2)
    } else if c == '3' {
        Some(3)
    } else if c == '4' {
        Some(4)
    } else if c == '5' {
        Some(5)
    } else if c == '6' {
        Some(6)
    } else if c == '7' {
        Some(7)
    } else if c == '8' {
        Some(8)
    } else {
        None
    }
}

/// Whether a letter of the first field stands for a man.
pub open spec fn is_man(c: char) -> bool {
    c == 'p' || c == 'n' || c == 'b' || c == 'r' || c == 'q' || c == 'k' || c == 'P' || c == 'N'
        || c == 'B' || c == 'R' || c == 'Q' || c == 'K'
}

/// What a man leaves on its square, as far as kings go.
pub open spec fn king_of(c: char) -> u8 {
    if c == 'K' {
        WHITE_KING
    } else if c == 'k' {
        BLACK_KING
    } else {
        NO_KING
    }
}

/// Where the reading of a first field stands.
pub ghost struct Reading {
    /// The rank of the cursor, 0 for the first rank.
    pub rank: int,
    /// The file of the cursor, 0 for the a-file.
    pub file: int,
    /// For each square, which king stands on it, if any.
    pub kings: Seq<u8>,
    /// Whether every character so far was one of a first field.
    pub valid: bool,
    /// Whether the field has ended.
    pub done: bool,
}

impl Reading {
    /// Before the first character: the cursor on a8, an empty board.
    pub open spec fn start() -> Reading {
        Reading {
            rank: 7,
            file: 0,
            kings: Seq::new(64, |square: int| NO_KING),
            valid: true,
            done: false,
        }
    }

    /// The reading after one more character.  A space ends the field.  A
    /// slash takes the cursor to the a-file of the rank below, and from the
    /// first rank to the eighth.  A digit takes it that many files on, and a
    /// man takes the square of the cursor and moves it one file on, in both
    /// cases around the edge of the board to the a-file of the same rank.
    pub open spec fn step(self, c: char) -> Reading {
        if self.done || !self.valid {
            self
        } else if c == ' ' {
            Reading { done: true, ..self }
        } else if c == '/' {
            Reading { rank: (self.rank + 7) % 8, file: 0, ..self }
        } else if is_man(c) {
            Reading {
                kings: self.kings.update(8 * self.rank + self.file, king_of(c)),
                file: (self.file + 1) % 8,
                ..self
            }
        } else {
            match digit_of(c) {
                Some(files) => Reading { file: (self.file + files) % 8, ..self },
                None => Reading { valid: false, ..self },
            }
        }
    }
}

/// The reading after the first `n` characters of a text.
pub open spec fn read(fen: Seq<char>, n: nat) -> Reading
    decreases n,
{
    if n == 0 {
        Reading::start()
    } else {
        read(fen, (n - 1) as nat).step(fen[n - 1])
    }
}

/// Whether the first field of a text is made of the characters of a first
/// field and leaves both kings on the board.
pub open spec fn kings_stand(fen: Seq<char>) -> bool {
    let reading = read(fen, fen.len());
    reading.valid && reading.kings.contains(WHITE_KING) && reading.kings.contains(BLACK_KING)
}

/// How far a digit of the first field moves the cursor along the rank.
pub fn digit(c: char) -> (files: Option<u8>)
    ensures
        match files {
            Some(files) => digit_of(c) == Some(files as int),
            None => digit_of(c).is_none(),
        },
{
    if c == '1' {
        Some(1)
    } else if c == '2' {
        Some(2)
    } else if c == '3' {
        Some(3)
    } else if c == '4' {
        Some(4)
    } else if c == '5' {
        Some(5)
    } else if c == '6' {
        Some(6)
    } else if c == '7' {
        Some(7)
    } else if c == '8' {
        Some(8)
    } else {
        None
    }
}

/// Whether a letter of the first field stands for a man.
pub fn man(c: char) -> (found: bool)
    ensures
        found == is_man(c),
{
    c == 'p' || c == 'n' || c == 'b' || c == 'r' || c == 'q' || c == 'k' || c == 'P' || c == 'N'
        || c == 'B' || c == 'R' || c == 'Q' || c == 'K'
}

/// Whether a king of the given side stands on a board.
pub fn stands_on(kings: &Vec<u8>, king: u8) -> (found: bool)
    ensures
        found == kings@.contains(king),
{
    let mut i: usize = 0;
    while i < kings.len()
        invariant
            i <= kings.len(),
            forall|j: int| 0 <= j < i ==> kings@[j] != king,
        decreases kings.len() - i,
    {
        if kings[i] == king {
            return true;
        }
        i += 1;
    }
    false
}

/// Whether the first field of a FEN text is made of the characters of a
/// first field and leaves both kings on the board.
pub fn has_kings(fen: &str) -> (found: bool)
    ensures
        found == kings_stand(fen@),
{
    let mut kings: Vec<u8> = Vec::new();
    while kings.len() < 64
        invariant
            kings.len() <= 64,
            forall|j: int| 0 <= j < kings.len() ==> kings@[j] == NO_KING,
        decreases 64 - kings.len(),
    {
        kings.push(NO_KING);
    }
    assert(kings@ =~= Reading::start().kings);
    let mut rank: u8 = 7;
    let mut file: u8 = 0;
    let mut valid = true;
    let mut done = false;
    let n: usize = fen.unicode_len();
    let mut i: usize = 0;
    while i < n
        invariant
            i <= n,
            n == fen@.len(),
            rank < 8,
            file < 8,
            kings.len() == 64,
            read(fen@, i as nat) == (Reading {
                rank: rank as int,
                file: file as int,
                kings: kings@,
                valid,
                done,
            }),
        decreases n - i,
    {
        let c = fen.get_char(i);
        if done || !valid {
        } else if c == ' ' {
            done = true;
        } else if c == '/' {
            rank = (rank + 7) % 8;
            file = 0;
        } else if man(c) {
            let king: u8 = if c == 'K' {
                WHITE_KING
            } else if c == 'k' {
                BLACK_KING
            } else {
                NO_KING
            };
            kings[(8 * rank + file) as usize] = king;
            file = (file + 1) % 8;
        } else {
            match digit(c) {
                Some(files) => {
                    file = (file + files) % 8;
                },
                None => {
                    valid = false;
                },
            }
        }
        i += 1;
    }
    valid && stands_on(&kings, WHITE_KING) && stands_on(&kings, BLACK_KING)
}

/// Where the reading of the fields of a text stands.
pub ghost struct Fields {
    /// The spaces read so far: fields end at a space.
    pub spaces: int,
    /// The characters of the fourth field read so far.
    pub len: int,
    /// Whether the first character of the fourth field takes several bytes.
    pub wide: bool,
}

impl Fields {
    /// Before the first character.
    pub open spec fn start() -> Fields {
        Fields { spaces: 0, len: 0, wide: false }
    }

    /// The reading after one more character.
    pub open spec fn step(self, c: char) -> Fields {
        if c == ' ' {
            Fields { spaces: self.spaces + 1, ..self }
        } else if self.spaces == 3 {
            Fields {
                len: self.len + 1,
                wide: if self.len == 0 {
                    c as u32 > 127
                } else {
                    self.wide
                },
                ..self
            }
        } else {
            self
        }
    }
}

/// The reading of the fields after the first `n` characters of a text.
pub open spec fn fields(fen: Seq<char>, n: nat) -> Fields
    decreases n,
{
    if n == 0 {
        Fields::start()
    } else {
        fields(fen, (n - 1) as nat).step(fen[n - 1])
    }
}

/// Whether the fourth field of a text, the en-passant field, is anything but
/// one character of several bytes.
pub open spec fn en_passant_reads(fen: Seq<char>) -> bool {
    let reading = fields(fen, fen.len());
    !(reading.len == 1 && reading.wide)
}

/// Whether the en-passant field of a FEN text is anything but one character
/// of several bytes.
pub fn reads_en_passant(fen: &str) -> (reads: bool)
    ensures
        reads == en_passant_reads(fen@),
{
    let mut spaces: usize = 0;
    let mut len: usize = 0;
    let mut wide = false;
    let n: usize = fen.unicode_len();
    let mut i: usize = 0;
    while i < n
        invariant
            i <= n,
            n == fen@.len(),
            spaces <= i,
            len <= i,
            fields(fen@, i as nat) == (Fields { spaces: spaces as int, len: len as int, wide }),
        decreases n - i,
    {
        let c = fen.get_char(i);
        if c == ' ' {
            spaces += 1;
        } else if spaces == 3 {
            if len == 0 {
                wide = c as u32 > 127;
            }
            len += 1;
        }
        i += 1;
    }
    !(len == 1 && wide)
}

} // verus!
