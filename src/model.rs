use vstd::prelude::*;

use crate::score::{Score, ScoreView};

verus! {

/// Why an extraction failed.
#[derive(Clone, Copy, PartialEq, Eq, Structural, Debug)]
pub enum ParseError {
    /// A node, class or child list has the wrong shape.
    Structure,
    /// A tile face has no `href`.
    MissingAttribute,
    /// A round heading has no `id`.
    MissingId,
    /// A round heading has no parent element.
    MissingParent,
    /// A turn names fewer than two roles.
    RoleCount,
    /// A turn names more than two roles.
    UnexpectedRole,
    /// A role's label is not the expected one.
    RoleLabelMismatch,
    /// An action row does not have three cells.
    RowShape,
    /// An action has no text and no tile.
    EmptyAction,
    /// A role's action is not among the turn's rows.
    ActionNotFound,
    /// A score is not a floating-point literal.
    NumericFormat,
}

/// One element of an action's description, as a value.
pub enum Token {
    Text(Seq<char>),
    Tile(Seq<char>),
}

/// One element of an action's description: a word or a tile face.
#[derive(Debug)]
pub enum ActionElement {
    Text(String),
    Tile(String),
}

impl View for ActionElement {
    type V = Token;

    open spec fn view(&self) -> Token {
        match self {
            ActionElement::Text(s) => Token::Text(s@),
            ActionElement::Tile(s) => Token::Tile(s@),
        }
    }
}

/// The symbolic description of an action.
#[derive(Debug)]
pub struct Action {
    pub elements: Vec<ActionElement>,
}

pub open spec fn tokens_of(v: Seq<ActionElement>) -> Seq<Token> {
    v.map_values(|e: ActionElement| e@)
}

impl View for Action {
    type V = Seq<Token>;

    open spec fn view(&self) -> Seq<Token> {
        tokens_of(self.elements@)
    }
}

/// An action with its quality and probability scores.
#[derive(Debug)]
pub struct ScoredAction {
    pub action: Action,
    pub quality: Score,
    pub probability: Score,
}

pub struct ScoredView {
    pub action: Seq<Token>,
    pub quality: ScoreView,
    pub probability: ScoreView,
}

impl View for ScoredAction {
    type V = ScoredView;

    open spec fn view(&self) -> ScoredView {
        ScoredView {
            action: self.action@,
            quality: self.quality@,
            probability: self.probability@,
        }
    }
}

pub open spec fn scored_views(v: Seq<ScoredAction>) -> Seq<ScoredView> {
    v.map_values(|a: ScoredAction| a@)
}

/// One turn: the actions on offer, and the index of the one that each of
/// the two agents chose.
#[derive(Debug)]
pub struct Turn {
    pub player: usize,
    pub mortal: usize,
    pub actions: Vec<ScoredAction>,
}

pub struct TurnView {
    pub player: int,
    pub mortal: int,
    pub actions: Seq<ScoredView>,
}

impl View for Turn {
    type V = TurnView;

    open spec fn view(&self) -> TurnView {
        TurnView {
            player: self.player as int,
            mortal: self.mortal as int,
            actions: scored_views(self.actions@),
        }
    }
}

pub open spec fn turn_views(v: Seq<Turn>) -> Seq<TurnView> {
    v.map_values(|t: Turn| t@)
}

/// One round: its turns in document order.
#[derive(Debug)]
pub struct Round {
    pub turns: Vec<Turn>,
}

impl View for Round {
    type V = Seq<TurnView>;

    open spec fn view(&self) -> Seq<TurnView> {
        turn_views(self.turns@)
    }
}

pub open spec fn round_views(v: Seq<Round>) -> Seq<Seq<TurnView>> {
    v.map_values(|r: Round| r@)
}

/// A whole report: its rounds in document order.
#[derive(Debug)]
pub struct Parsed {
    pub rounds: Vec<Round>,
}

impl View for Parsed {
    type V = Seq<Seq<TurnView>>;

    open spec fn view(&self) -> Seq<Seq<TurnView>> {
        round_views(self.rounds@)
    }
}

} // verus!
