use vstd::prelude::*;

use crate::board::{move_legal, move_result, place, Board, BoardView};
use crate::coords::within;
use crate::stone::Stone;
use crate::text::{board_text, parsed_board};

verus! {

/// One player's record: an optional display name and an optional rank.
#[derive(Debug)]
pub struct Player {
    pub name: Option<String>,
    pub rank: Option<String>,
}

/// A game in progress: the current board, the board as it stood before the
/// last accepted move (used to enforce the ko rule), and the two players'
/// records.
#[derive(Debug)]
pub struct Game {
    pub board: Board,
    pub last_board: Option<Board>,
    pub black: Player,
    pub white: Player,
}

/// The mathematical model of a game.
pub struct GameView {
    pub board: BoardView,
    pub last: Option<BoardView>,
    pub black_name: Option<Seq<char>>,
    pub black_rank: Option<Seq<char>>,
    pub white_name: Option<Seq<char>>,
    pub white_rank: Option<Seq<char>>,
}

impl View for Game {
    type V = GameView;

    open spec fn view(&self) -> GameView {
        GameView {
            board: self.board@,
            last: match self.last_board {
                Some(b) => Some(b@),
                None => None,
            },
            black_name: match self.black.name {
                Some(s) => Some(s@),
                None => None,
            },
            black_rank: match self.black.rank {
                Some(s) => Some(s@),
                None => None,
            },
            white_name: match self.white.name {
                Some(s) => Some(s@),
                None => None,
            },
            white_rank: match self.white.rank {
                Some(s) => Some(s@),
                None => None,
            },
        }
    }
}

/// A fresh game: an empty 19x19 board, no history, no player records.
pub open spec fn initial_game() -> GameView {
    GameView {
        board: BoardView { grid: Seq::new((19 * 19) as nat, |i: int| Stone::Empty), size: 19 },
        last: None,
        black_name: None,
        black_rank: None,
        white_name: None,
        white_rank: None,
    }
}

/// Whether playing `c` at `(x, y)` is accepted at the game level: the board
/// must accept it, and the resulting position must not recreate the board as
/// it stood before the previous move (the ko rule).
pub open spec fn move_allowed(g: GameView, c: Stone, x: usize, y: usize) -> bool {
    &&& move_legal(g.board, c, (x, y))
    &&& match g.last {
        Some(b) => b != move_result(g.board, c, (x, y)),
        None => true,
    }
}

/// The game after a move request: an accepted move commits the new board and
/// remembers the old one; a rejected move changes nothing.
pub open spec fn game_step(g: GameView, c: Stone, x: usize, y: usize) -> GameView {
    if move_allowed(g, c, x, y) {
        GameView {
            board: move_result(g.board, c, (x, y)),
            last: Some(g.board),
            black_name: g.black_name,
            black_rank: g.black_rank,
            white_name: g.white_name,
            white_rank: g.white_rank,
        }
    } else {
        g
    }
}

/// An SGF property, classified by its key.
pub enum SgfProp {
    AddStone(Stone),
    Move(Stone),
    PlayerName(Stone),
    PlayerRank(Stone),
    Unknown,
}

/// The action an SGF property key stands for: `B`/`W` plays a move, `AB`/`AW`
/// adds a stone directly, `PB`/`PW` records a name, `BR`/`WR` records a rank;
/// every other key is ignored.
pub open spec fn classify(k: Seq<char>) -> SgfProp {
    if k == seq!['B'] {
        SgfProp::Move(Stone::Black)
    } else if k == seq!['W'] {
        SgfProp::Move(Stone::White)
    } else if k == seq!['A', 'B'] {
        SgfProp::AddStone(Stone::Black)
    } else if k == seq!['A', 'W'] {
        SgfProp::AddStone(Stone::White)
    } else if k == seq!['P', 'B'] {
        SgfProp::PlayerName(Stone::Black)
    } else if k == seq!['P', 'W'] {
        SgfProp::PlayerName(Stone::White)
    } else if k == seq!['B', 'R'] {
        SgfProp::PlayerRank(Stone::Black)
    } else if k == seq!['W', 'R'] {
        SgfProp::PlayerRank(Stone::White)
    } else {
        SgfProp::Unknown
    }
}

/// Whether a text is a well-formed alphabetic coordinate: at least two
/// characters, each at or beyond the letter `a`.
pub open spec fn coord_wf(s: Seq<char>) -> bool {
    s.len() >= 2 && (s[0] as u32) >= 97 && (s[1] as u32) >= 97
}

/// The coordinate an alphabetic pair denotes: each character's offset from
/// the letter `a` gives one axis index.
pub open spec fn alpha_coord(s: Seq<char>) -> (usize, usize) {
    ((((s[0] as u32) - 97) as usize), (((s[1] as u32) - 97) as usize))
}

/// Whether one property's value is well formed enough for its key on a board
/// of side length `size`: move and add-stone values must be coordinates, and
/// an added stone must land on the board.
pub open spec fn prop_wf(size: usize, k: Seq<char>, val: Seq<char>) -> bool {
    match classify(k) {
        SgfProp::Move(c) => coord_wf(val),
        SgfProp::AddStone(c) => coord_wf(val) && within(size, alpha_coord(val)),
        _ => true,
    }
}

/// Whether every property in a record is well formed for a board of side
/// length `size`.
pub open spec fn props_wf(size: usize, props: Seq<(Seq<char>, Seq<char>)>) -> bool {
    forall|i: int| 0 <= i < props.len() ==> prop_wf(size, (#[trigger] props[i]).0, props[i].1)
}

/// The game after one property is applied: a move key plays through the move
/// rules, an add-stone key writes the cell directly, name and rank keys fill
/// the player records, and unknown keys change nothing.
pub open spec fn apply_prop(g: GameView, k: Seq<char>, val: Seq<char>) -> GameView {
    match classify(k) {
        SgfProp::Move(c) => game_step(g, c, alpha_coord(val).0, alpha_coord(val).1),
        SgfProp::AddStone(c) => GameView {
            board: place(g.board, c, alpha_coord(val)),
            last: g.last,
            black_name: g.black_name,
            black_rank: g.black_rank,
            white_name: g.white_name,
            white_rank: g.white_rank,
        },
        SgfProp::PlayerName(c) => if c == Stone::Black {
            GameView {
                board: g.board,
                last: g.last,
                black_name: Some(val),
                black_rank: g.black_rank,
                white_name: g.white_name,
                white_rank: g.white_rank,
            }
        } else {
            GameView {
                board: g.board,
                last: g.last,
                black_name: g.black_name,
                black_rank: g.black_rank,
                white_name: Some(val),
                white_rank: g.white_rank,
            }
        },
        SgfProp::PlayerRank(c) => if c == Stone::Black {
            GameView {
                board: g.board,
                last: g.last,
                black_name: g.black_name,
                black_rank: Some(val),
                white_name: g.white_name,
                white_rank: g.white_rank,
            }
        } else {
            GameView {
                board: g.board,
                last: g.last,
                black_name: g.black_name,
                black_rank: g.black_rank,
                white_name: g.white_name,
                white_rank: Some(val),
            }
        },
        SgfProp::Unknown => g,
    }
}

/// The game after a whole record of properties is applied in order.
pub open spec fn apply_props(g: GameView, props: Seq<(Seq<char>, Seq<char>)>) -> GameView
    decreases props.len(),
{
    if props.len() == 0 {
        g
    } else {
        apply_prop(apply_props(g, props.drop_last()), props.last().0, props.last().1)
    }
}

/// The key/value views of an extracted property list.
pub open spec fn props_view(props: Seq<(String, String)>) -> Seq<(Seq<char>, Seq<char>)> {
    props.map_values(|kv: (String, String)| (kv.0@, kv.1@))
}

/// A player name as displayed: the recorded name, or a placeholder.
pub open spec fn name_or_unknown(n: Option<Seq<char>>) -> Seq<char> {
    match n {
        Some(s) => s,
        None => "<unknown>"@,
    }
}

/// The display form of a game: one labelled line per player name, then the
/// board's text.
pub open spec fn game_text(g: GameView) -> Seq<char> {
    "Black Player: "@ + name_or_unknown(g.black_name) + "\n"@ + "White Player: "@
        + name_or_unknown(g.white_name) + "\n"@ + board_text(g.board)
}

/// The properties an SGF text yields: every `key[value]` pair that the
/// record-extraction pattern finds, in order of appearance.
pub uninterp spec fn sgf_properties(s: Seq<char>) -> Seq<(Seq<char>, Seq<char>)>;

/// Relies on `regex::Regex::captures_iter` with the fixed pattern
/// `(\w{1,2})\[(.+?)\]`: the matches found in a text depend on the text
/// alone, and each match contributes its two capture groups.
#[verifier::external_body]
fn extract_properties(text: &str) -> (r: Vec<(String, String)>)
    ensures
        props_view(r@) == sgf_properties(text@),
{
    let re = regex::Regex::new(r"(\w{1,2})\[(.+?)\]").expect("invalid regex");
    re.captures_iter(text).map(|cap| (cap[1].to_string(), cap[2].to_string())).collect()
}

/// The action a property key names.
fn classify_key(k: &str) -> (r: SgfProp)
    ensures
        r == classify(k@),
{
    let n = k.unicode_len();
    if n == 1 {
        let c = k.get_char(0);
        proof {
            assert(k@ =~= seq![k@[0]]);
        }
        if c == 'B' {
            SgfProp::Move(Stone::Black)
        } else if c == 'W' {
            SgfProp::Move(Stone::White)
        } else {
            SgfProp::Unknown
        }
    } else if n == 2 {
        let a = k.get_char(0);
        let b = k.get_char(1);
        proof {
            assert(k@ =~= seq![k@[0], k@[1]]);
        }
        if a == 'A' && b == 'B' {
            SgfProp::AddStone(Stone::Black)
        } else if a == 'A' && b == 'W' {
            SgfProp::AddStone(Stone::White)
        } else if a == 'P' && b == 'B' {
            SgfProp::PlayerName(Stone::Black)
        } else if a == 'P' && b == 'W' {
            SgfProp::PlayerName(Stone::White)
        } else if a == 'B' && b == 'R' {
            SgfProp::PlayerRank(Stone::Black)
        } else if a == 'W' && b == 'R' {
            SgfProp::PlayerRank(Stone::White)
        } else {
            SgfProp::Unknown
        }
    } else {
        SgfProp::Unknown
    }
}

/// Whether a property value is a well-formed coordinate, and for an added
/// stone, one that lands on a board of side length `size`.
fn check_prop(size: usize, k: &String, val: &String) -> (r: bool)
    ensures
        r == prop_wf(size, k@, val@),
{
    match classify_key(k.as_str()) {
        SgfProp::Move(_) => check_coord(val),
        SgfProp::AddStone(_) => {
            if check_coord(val) {
                let (x, y) = Game::alpha_to_xy(val.as_str());
                x < size && y < size
            } else {
                false
            }
        },
        _ => true,
    }
}

/// Whether a value is a well-formed alphabetic coordinate.
fn check_coord(val: &String) -> (r: bool)
    ensures
        r == coord_wf(val@),
{
    let s = val.as_str();
    if s.unicode_len() < 2 {
        return false;
    }
    let a = s.get_char(0);
    let b = s.get_char(1);
    (a as u32) >= 97 && (b as u32) >= 97
}

impl Game {
    /// Creates a new game with an empty 19x19 board and no metadata.
    pub fn new() -> (r: Game)
        ensures
            r@ == initial_game(),
            r@.board.wf(),
    {
        let board = Board::with_size(19);
        let r = Game {
            board,
            last_board: None,
            black: Player { name: None, rank: None },
            white: Player { name: None, rank: None },
        };
        proof {
            assert(r@.board.grid =~= initial_game().board.grid);
            assert(r@.board =~= initial_game().board);
        }
        r
    }

    /// Creates a new game from a string representation of the board state.
    pub fn from_str(board: &str) -> (r: Game)
        ensures
            r@.board.wf(),
            parsed_board(board@, r@.board),
            r@.last is None,
            r@.black_name is None,
            r@.black_rank is None,
            r@.white_name is None,
            r@.white_rank is None,
    {
        Game {
            board: Board::from_str(board),
            last_board: None,
            black: Player { name: None, rank: None },
            white: Player { name: None, rank: None },
        }
    }

    /// Places `stone` at `(x, y)`, returning whether the play succeeded.
    /// The play must be legal on the board, and must not recreate the
    /// position as it stood before the previous move (the ko rule); a
    /// rejected play leaves the game unchanged.
    pub fn make_move(&mut self, stone: Stone, x: usize, y: usize) -> (r: bool)
        requires
            old(self)@.board.wf(),
        ensures
            r == move_allowed(old(self)@, stone, x, y),
            final(self)@ == game_step(old(self)@, stone, x, y),
            final(self)@.board.wf(),
    {
        let mut next_board = self.board.clone();

        if !next_board.make_move(stone, x, y) {
            return false;
        }

        let mut ko = false;
        match &self.last_board {
            Some(b) => {
                if *b == next_board {
                    ko = true;
                }
            },
            None => {},
        }
        if ko {
            return false;
        }

        self.last_board = Some(self.board.clone());
        self.board = next_board;

        true
    }

    /// Maps an alphabetic coordinate pair to `(x, y)`: each character's
    /// offset from the letter `a` gives one axis index. The value must be a
    /// well-formed coordinate; malformed record text is a contract violation.
    pub fn alpha_to_xy(alpha: &str) -> (r: (usize, usize))
        requires
            coord_wf(alpha@),
        ensures
            r == alpha_coord(alpha@),
    {
        let a = alpha.get_char(0);
        let b = alpha.get_char(1);
        (((a as u32) - 97) as usize, ((b as u32) - 97) as usize)
    }

    /// Applies a record of extracted `key[value]` properties in order:
    /// moves are played through the move rules (illegal ones are skipped),
    /// added stones are written directly, and player names and ranks are
    /// recorded. Every coordinate-bearing property must be well formed.
    pub fn apply_properties(&mut self, props: &Vec<(String, String)>)
        requires
            old(self)@.board.wf(),
            props_wf(old(self)@.board.size, props_view(props@)),
        ensures
            final(self)@ == apply_props(old(self)@, props_view(props@)),
            final(self)@.board.wf(),
    {
        let ghost g0 = self@;
        let ghost pv = props_view(props@);
        let mut i: usize = 0;
        while i < props.len()
            invariant
                pv == props_view(props@),
                props_wf(g0.board.size, pv),
                i <= props@.len(),
                self@ == apply_props(g0, pv.take(i as int)),
                self@.board.wf(),
                self@.board.size == g0.board.size,
            decreases props@.len() - i,
        {
            proof {
                assert(pv.take(i + 1).drop_last() =~= pv.take(i as int));
                assert(pv.take(i + 1).last() == pv[i as int]);
                assert(pv[i as int] == (props@[i as int].0@, props@[i as int].1@));
                assert(prop_wf(g0.board.size, pv[i as int].0, pv[i as int].1));
            }
            let kv = &props[i];
            match classify_key(kv.0.as_str()) {
                SgfProp::Move(c) => {
                    let (x, y) = Game::alpha_to_xy(kv.1.as_str());
                    let _moved = self.make_move(c, x, y);
                },
                SgfProp::AddStone(c) => {
                    let (x, y) = Game::alpha_to_xy(kv.1.as_str());
                    self.board.set(x, y, c);
                },
                SgfProp::PlayerName(c) => {
                    if c == Stone::Black {
                        self.black.name = Some(kv.1.clone());
                    } else {
                        self.white.name = Some(kv.1.clone());
                    }
                },
                SgfProp::PlayerRank(c) => {
                    if c == Stone::Black {
                        self.black.rank = Some(kv.1.clone());
                    } else {
                        self.white.rank = Some(kv.1.clone());
                    }
                },
                SgfProp::Unknown => {},
            }
            i += 1;
        }
        proof {
            assert(pv.take(props@.len() as int) =~= pv);
        }
    }

    /// Builds a game from the text of an SGF record: the extracted
    /// properties are applied to a fresh game. Returns `None` when some
    /// coordinate-bearing property is malformed.
    pub fn from_sgf_text(text: &str) -> (r: Option<Game>)
        ensures
            match r {
                Some(g) => props_wf(19, sgf_properties(text@)) && g@ == apply_props(
                    initial_game(),
                    sgf_properties(text@),
                ),
                None => !props_wf(19, sgf_properties(text@)),
            },
    {
        let props = extract_properties(text);
        let mut i: usize = 0;
        let ghost pv = props_view(props@);
        while i < props.len()
            invariant
                pv == props_view(props@),
                pv == sgf_properties(text@),
                i <= props@.len(),
                forall|j: int| 0 <= j < i ==> prop_wf(19, (#[trigger] pv[j]).0, pv[j].1),
            decreases props@.len() - i,
        {
            let kv = &props[i];
            if !check_prop(19, &kv.0, &kv.1) {
                proof {
                    assert(pv[i as int] == (props@[i as int].0@, props@[i as int].1@));
                    assert(!prop_wf(19, pv[i as int].0, pv[i as int].1));
                    assert(!props_wf(19, pv));
                }
                return None;
            }
            i += 1;
        }
        let mut game = Game::new();
        game.apply_properties(&props);
        Some(game)
    }

    /// The game's display form: the two player names, then the board.
    pub fn render(&self) -> (r: String)
        requires
            self@.board.wf(),
        ensures
            r@ == game_text(self@),
    {
        let mut out = String::new();
        out.append("Black Player: ");
        match &self.black.name {
            Some(n) => out.append(n.as_str()),
            None => out.append("<unknown>"),
        }
        out.append("\n");
        out.append("White Player: ");
        match &self.white.name {
            Some(n) => out.append(n.as_str()),
            None => out.append("<unknown>"),
        }
        out.append("\n");
        let b = self.board.render();
        out.append(b.as_str());
        proof {
            assert(out@ =~= game_text(self@));
        }
        out
    }
}

} // verus!
