use tictactoe::game::{ai_move, evaluate_position, minimax};
use tictactoe::game::BoardSpace::{Empty, Occupied};
use tictactoe::game::Game;
use tictactoe::game::GameState;
use tictactoe::game::Player::{O, X};
use tictactoe::random::Shuffle;

#[test]
fn test_new_game() {
    let game = Game::new();
    assert_eq!(game.get_state(), GameState::Playing);
    assert!(game.get_turn() == X);
    let board = game.get_board();
    for row in board.iter() {
        for cell in row.iter() {
            assert!(*cell == Empty);
        }
    }
}

#[test]
fn test_evaluate_deterministic() {
    let board = [
        [Occupied(X), Occupied(X), Occupied(X)],
        [Occupied(O), Occupied(O), Empty],
        [Empty, Empty, Empty],
    ];
    let game = Game {
        board,
        state: GameState::XWon,
        turn: O,
    };
    let first = game.check_win();
    let second = game.check_win();
    assert_eq!(first, second);
    assert_eq!(first, GameState::XWon);

    let game = Game::new();
    assert_eq!(game.check_win(), game.check_win());
    assert_eq!(game.check_win(), GameState::Playing);
}

#[test]
fn test_play_occupied_is_noop() {
    let mut game = Game::new();
    game.play(1, 1);
    assert!(game.get_board()[1][1] == Occupied(X));
    assert!(game.get_turn() == O);

    let board_before = game.get_board();
    let state_before = game.get_state();
    game.play(1, 1);
    let board_after = game.get_board();
    for r in 0..3 {
        for c in 0..3 {
            assert!(board_after[r][c] == board_before[r][c]);
        }
    }
    assert!(game.get_turn() == O);
    assert_eq!(game.get_state(), state_before);
}

#[test]
fn test_turn_alternation() {
    let mut game = Game::new();
    let moves = [(0usize, 0usize), (1, 1), (0, 1), (0, 2), (2, 2)];
    for (k, (r, c)) in moves.iter().enumerate() {
        if k % 2 == 0 {
            assert!(game.get_turn() == X);
        } else {
            assert!(game.get_turn() == O);
        }
        game.play(*r, *c);
    }
    assert!(game.get_turn() == O);
}

#[test]
fn test_ai_move_totality() {
    // A finished game yields no move.
    let board = [
        [Occupied(X), Occupied(X), Occupied(X)],
        [Occupied(O), Occupied(O), Empty],
        [Empty, Empty, Empty],
    ];
    let game = Game {
        board,
        state: GameState::XWon,
        turn: O,
    };
    assert_eq!(ai_move(&game), None);

    // A running game yields a move aimed at an empty cell.
    let mut game = Game::new();
    game.play(0, 0);
    let (r, c) = ai_move(&game).expect("a running game must yield a move");
    assert!(r < 3 && c < 3);
    assert!(game.get_board()[r][c] == Empty);
}

/// A straightforward unpruned minimax over the same move order, as a
/// reference point for the pruning search.
fn plain_minimax(game: &Game) -> i32 {
    if game.get_state() != GameState::Playing {
        return match game.get_state() {
            GameState::XWon => 1,
            GameState::OWon => -1,
            _ => 0,
        };
    }
    let maximizing = game.get_turn() == X;
    let mut best = if maximizing { -10 } else { 10 };
    for (r, c) in game.empty_spaces() {
        let mut child = *game;
        child.play(r, c);
        let s = plain_minimax(&child);
        if maximizing {
            if s > best {
                best = s;
            }
        } else if s < best {
            best = s;
        }
    }
    best
}

#[test]
fn test_pruned_score_matches_unpruned_minimax() {
    let boards = [
        [
            [Occupied(X), Occupied(O), Occupied(O)],
            [Empty, Occupied(X), Occupied(X)],
            [Occupied(X), Occupied(O), Empty],
        ],
        [
            [Empty, Occupied(O), Occupied(O)],
            [Empty, Empty, Occupied(X)],
            [Occupied(X), Occupied(X), Occupied(O)],
        ],
        [
            [Empty, Empty, Empty],
            [Empty, Empty, Empty],
            [Empty, Empty, Empty],
        ],
    ];
    for board in boards.iter() {
        for turn in [X, O] {
            let game = Game {
                board: *board,
                state: GameState::Playing,
                turn,
            };
            let (_, pruned_score) = minimax(&game, -10, 10);
            assert_eq!(pruned_score, plain_minimax(&game));
        }
    }
}

#[test]
fn test_optimal_play_draw() {
    let mut game = Game::new();
    let mut plies = 0;
    while game.get_state() == GameState::Playing {
        let (r, c) = ai_move(&game).expect("a running game must yield a move");
        game.play(r, c);
        plies += 1;
        assert!(plies <= 9);
    }
    assert_eq!(game.get_state(), GameState::Tie);
}

#[test]
fn test_immediate_win_available() {
    let board = [
        [Occupied(X), Occupied(O), Occupied(O)],
        [Empty, Occupied(X), Occupied(X)],
        [Occupied(X), Occupied(O), Occupied(O)],
    ];
    let mut game = Game {
        board,
        state: GameState::Playing,
        turn: X,
    };
    let (_, score) = minimax(&game, -10, 10);
    assert_eq!(score, 1);
    let (r, c) = ai_move(&game).expect("a running game must yield a move");
    game.play(r, c);
    assert_eq!(game.get_state(), GameState::XWon);
    assert_eq!(evaluate_position(&game), 1);
}

#[test]
fn test_forced_loss() {
    let board = [
        [Empty, Occupied(O), Occupied(O)],
        [Empty, Occupied(X), Occupied(X)],
        [Occupied(X), Occupied(X), Occupied(O)],
    ];
    let game = Game {
        board,
        state: GameState::Playing,
        turn: O,
    };
    let (_, score) = minimax(&game, -10, 10);
    assert_eq!(score, -1);
}

#[test]
fn test_empty_cells_coverage() {
    let game = Game::new();
    let cells = game.empty_spaces();
    let expected = vec![
        (0usize, 0usize),
        (0, 1),
        (0, 2),
        (1, 0),
        (1, 1),
        (1, 2),
        (2, 0),
        (2, 1),
        (2, 2),
    ];
    assert_eq!(cells, expected);
}

#[test]
fn test_evaluate_position_each_outcome() {
    let x_won = Game {
        board: [
            [Occupied(X), Occupied(X), Occupied(X)],
            [Occupied(O), Occupied(O), Empty],
            [Empty, Empty, Empty],
        ],
        state: GameState::XWon,
        turn: O,
    };
    assert_eq!(evaluate_position(&x_won), 1);

    let o_won = Game {
        board: [
            [Occupied(O), Occupied(O), Occupied(O)],
            [Occupied(X), Occupied(X), Empty],
            [Occupied(X), Empty, Empty],
        ],
        state: GameState::OWon,
        turn: X,
    };
    assert_eq!(evaluate_position(&o_won), -1);

    let tie = Game {
        board: [
            [Occupied(X), Occupied(O), Occupied(X)],
            [Occupied(X), Occupied(O), Occupied(O)],
            [Occupied(O), Occupied(X), Occupied(X)],
        ],
        state: GameState::Tie,
        turn: O,
    };
    assert_eq!(evaluate_position(&tie), 0);
}

#[test]
fn test_minimax_on_finished_game() {
    let game = Game {
        board: [
            [Occupied(X), Occupied(X), Occupied(X)],
            [Occupied(O), Occupied(O), Empty],
            [Empty, Empty, Empty],
        ],
        state: GameState::XWon,
        turn: O,
    };
    let (mv, score) = minimax(&game, -10, 10);
    assert_eq!(mv, (0, 0));
    assert_eq!(score, 1);
}

#[test]
fn test_shuffle_keeps_elements() {
    quad_rand::srand(7);
    let mut v: Vec<u32> = (0..32).collect();
    v.shuffle();
    assert_eq!(v.len(), 32);
    let mut sorted = v.clone();
    sorted.sort();
    let expected: Vec<u32> = (0..32).collect();
    assert_eq!(sorted, expected);
    // With 32 elements the drawn permutation leaving every element in its
    // place would mean the generator handed back each lower bound in turn.
    assert_ne!(v, expected);
}

#[test]
fn test_shuffle_short_vectors() {
    quad_rand::srand(11);
    let mut v: Vec<u32> = vec![5];
    v.shuffle();
    assert_eq!(v, vec![5]);
    let mut empty_vec: Vec<u32> = Vec::new();
    empty_vec.shuffle();
    assert!(empty_vec.is_empty());
}
