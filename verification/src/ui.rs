//! Which recipe to build, and how the outcome of a step is shown.
use vstd::prelude::*;

use crate::engine::{Board, Recipe, RecipeNotFound, every_recipe, labels, labels_of, list_sep, pick, resolved};
use crate::text::{join, join_strings};
use crate::workspace::Workspace;

verus! {

/// How a logged step turned out.
pub enum Status {
    Done,
    Info,
    Warn,
    Error,
}

impl Status {
    /// The mark printed before a message of this status.
    pub fn symbol(&self) -> (s: &'static str)
        ensures
            s@ == match self {
                Status::Done => "✓"@,
                Status::Info => "→"@,
                Status::Warn => "!"@,
                Status::Error => "✗"@,
            },
    {
        match self {
            Status::Done => "✓",
            Status::Info => "→",
            Status::Warn => "!",
            Status::Error => "✗",
        }
    }
}

/// What selecting a recipe comes to.
pub enum Selection {
    /// The recipe that the name asked for.
    Named(Recipe),
    /// The first recipe, in tree order, whose whole path detection matched.
    Detected(Recipe),
}

/// Why no recipe can be selected.
pub enum SelectError {
    /// No recipe answers to the name asked for.
    NotFound(RecipeNotFound),
    /// No recipe was detected; the board's name and the labels of all its recipes,
    /// separated by `", "`.
    NoMatch { board: String, available: String },
    /// The board has no recipes at all; its name.
    NoToolchains(String),
}

impl SelectError {
    /// The error's text.
    pub open spec fn text(self) -> Seq<char> {
        match self {
            SelectError::NotFound(e) => e.text(),
            SelectError::NoMatch { board, available } => "No toolchain detected for '"@ + board@
                + "'. Available: "@ + available@,
            SelectError::NoToolchains(board) => "No toolchains configured for "@ + board@ + "."@,
        }
    }

    /// The error's text (see [`SelectError::text`]).
    pub fn message(&self) -> (m: String)
        ensures
            m@ == self.text(),
    {
        match self {
            SelectError::NotFound(e) => e.message(),
            SelectError::NoMatch { board, available } => {
                let mut m = "No toolchain detected for '".to_owned();
                m.append(board.as_str());
                m.append("'. Available: ");
                m.append(available.as_str());
                m
            },
            SelectError::NoToolchains(board) => {
                let mut m = "No toolchains configured for ".to_owned();
                m.append(board.as_str());
                m.append(".");
                m
            },
        }
    }
}

/// Selects the recipe to build: the one named by `tool_override` where one is given;
/// else the first recipe whose whole path detection matched; else an error that lists
/// the labels of all the board's recipes (or says that it has none).
pub fn select_recipe(board: &Board, ws: &Workspace, tool_override: Option<&str>) -> (r: Result<
    Selection,
    SelectError,
>)
    ensures
        match tool_override {
            Some(name) => match pick(*board, name@, *ws) {
                Some(found) => r matches Ok(Selection::Named(x)) && x@ == found,
                None => r matches Err(SelectError::NotFound(e)) && e.name@ == name@ && e.board@
                    == board.name@ && e.available@ == join(
                    labels(every_recipe(*board, *ws)),
                    list_sep(),
                ),
            },
            None => {
                let det = resolved(*board, *ws);
                let all = every_recipe(*board, *ws);
                if det.len() > 0 {
                    r matches Ok(Selection::Detected(x)) && x@ == det[0]
                } else if all.len() == 0 {
                    r matches Err(SelectError::NoToolchains(n)) && n@ == board.name@
                } else {
                    r matches Err(SelectError::NoMatch { board: b, available: a }) && b@
                        == board.name@ && a@ == join(labels(all), list_sep())
                }
            },
        },
{
    match tool_override {
        Some(name) => match board.get_recipe_by_path(name, ws) {
            Ok(recipe) => Ok(Selection::Named(recipe)),
            Err(e) => Err(SelectError::NotFound(e)),
        },
        None => {
            let mut detected = board.resolve_recipes(ws);
            if detected.len() > 0 {
                assert(detected@.map_values(|x: Recipe| x@)[0] == detected@[0]@);
                Ok(Selection::Detected(detected.remove(0)))
            } else {
                let all = board.all_recipes(ws);
                if all.len() == 0 {
                    Err(SelectError::NoToolchains(board.name.clone()))
                } else {
                    let available = join_strings(&labels_of(&all), ", ");
                    Err(SelectError::NoMatch { board: board.name.clone(), available })
                }
            }
        },
    }
}

} // verus!
