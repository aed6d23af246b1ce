use tictactoe::game::minimax;
use tictactoe::game::BoardSpace::{Empty, Occupied};
use tictactoe::game::Game;
use tictactoe::game::GameState;
use tictactoe::game::Player::{O, X};

#[test]
fn test_minimax_last_step() {
    // tie
    let board = [
        [Occupied(X), Occupied(O), Occupied(O)],
        [Occupied(O), Occupied(X), Occupied(X)],
        [Occupied(X), Empty, Occupied(O)],
    ];
    let game = Game {
        board,
        state: GameState::Playing,
        turn: X,
    };
    let (_, score) = minimax(&game, -10, 10);
    assert_eq!(score, 0);

    // x win
    let board = [
        [Occupied(X), Occupied(O), Occupied(O)],
        [Empty, Occupied(X), Occupied(X)],
        [Occupied(X), Occupied(O), Occupied(O)],
    ];
    let game = Game {
        board,
        state: GameState::Playing,
        turn: X,
    };
    let (_, score) = minimax(&game, -10, 10);
    assert_eq!(score, 1);
}

#[test]
fn test_minimax_depth2() {
    // x win
    let board = [
        [Occupied(X), Occupied(O), Occupied(O)],
        [Empty, Occupied(X), Occupied(X)],
        [Occupied(X), Occupied(O), Empty],
    ];
    let game = Game {
        board,
        state: GameState::Playing,
        turn: O,
    };
    let (_, score) = minimax(&game, -10, 10);
    assert_eq!(score, 1);

    // tie
    let board = [
        [Occupied(X), Occupied(O), Occupied(O)],
        [Empty, Occupied(X), Occupied(X)],
        [Occupied(X), Empty, Occupied(O)],
    ];
    let game = Game {
        board,
        state: GameState::Playing,
        turn: O,
    };
    let (_, score) = minimax(&game, -10, 10);
    assert_eq!(score, 0);

    // o win
    let board = [
        [Empty, Occupied(O), Occupied(O)],
        [Empty, Occupied(X), Occupied(X)],
        [Occupied(X), Occupied(X), Occupied(O)],
    ];
    let game = Game {
        board,
        state: GameState::Playing,
        turn: O,
    };
    let (_, score) = minimax(&game, -10, 10);
    assert_eq!(score, -1);
}

#[test]
fn test_minimax_depth3() {
    // x win
    let board = [
        [Empty, Occupied(O), Occupied(O)],
        [Empty, Occupied(X), Occupied(X)],
        [Occupied(X), Occupied(O), Empty],
    ];
    let game = Game {
        board,
        state: GameState::Playing,
        turn: X,
    };
    let (_, score) = minimax(&game, -10, 10);
    assert_eq!(score, 1);

    // tie
    let board = [
        [Empty, Occupied(O), Occupied(O)],
        [Empty, Empty, Occupied(X)],
        [Occupied(X), Occupied(X), Occupied(O)],
    ];
    let game = Game {
        board,
        state: GameState::Playing,
        turn: X,
    };
    let (_, score) = minimax(&game, -10, 10);
    assert_eq!(score, 0);

    // o win
    let board = [
        [Occupied(O), Empty, Occupied(O)],
        [Empty, Empty, Occupied(X)],
        [Occupied(O), Occupied(X), Occupied(X)],
    ];
    let game = Game {
        board,
        state: GameState::Playing,
        turn: X,
    };
    let (_, score) = minimax(&game, -10, 10);
    assert_eq!(score, -1);
}

#[test]
fn test_minimax_the_game_is_a_tie() {
    let board = [
        [Empty, Empty, Empty],
        [Empty, Empty, Empty],
        [Empty, Empty, Empty],
    ];
    let game = Game {
        board,
        state: GameState::Playing,
        turn: X,
    };
    let (_, score) = minimax(&game, -10, 10);
    assert_eq!(score, 0);
}

#[test]
fn test_iterator() {
    let board = [
        [Occupied(X), Occupied(O), Empty],
        [Occupied(O), Occupied(X), Occupied(X)],
        [Empty, Empty, Occupied(O)],
    ];
    let game = Game {
        board,
        state: GameState::Playing,
        turn: X,
    };
    let empty = game.empty_spaces().len();
    assert_eq!(empty, 3);
}
