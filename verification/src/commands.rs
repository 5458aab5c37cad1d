//! The command line: what it asks for, and the images that baking pushes.
use vstd::prelude::*;

use crate::engine::{Board, Recipe, RecipeModel, every_recipe, image_tag, tag_of};
use crate::workspace::Workspace;

verus! {

/// The parsed command line.
pub struct Cli {
    pub command: Commands,
}

/// The subcommands.
pub enum Commands {
    /// Build the project in its recipe's container.
    Build {
        recipe: String,
        tool: Option<String>,
        registry: Option<String>,
        path: String,
        extra: Vec<String>,
    },
    /// Run a command in the recipe's container.
    Run { recipe: String, path: String, command: String },
    /// Build and push the images of all recipes of a board.
    Bake { recipe: String, registry: String, path: String },
}

/// The images that baking builds and pushes, in order: for each recipe with a non-empty
/// Dockerfile, its tag in `registry` and its Dockerfile.
pub open spec fn bake_targets(rs: Seq<RecipeModel>, registry: Seq<char>, board: Seq<char>) -> Seq<
    (Seq<char>, Seq<char>),
>
    decreases rs.len(),
{
    if rs.len() == 0 {
        seq![]
    } else {
        bake_targets(rs.drop_last(), registry, board) + if rs.last().dockerfile.len() == 0 {
            seq![]
        } else {
            seq![(tag_of(Some(registry), board, rs.last()), rs.last().dockerfile)]
        }
    }
}

/// The images that `fork bake` builds and pushes for `board` (see [`bake_targets`]):
/// every recipe, detection aside, whose Dockerfile is not empty.
pub fn bake_plan(board: &Board, ws: &Workspace, registry: &str) -> (plan: Vec<(String, String)>)
    ensures
        plan@.map_values(|p: (String, String)| (p.0@, p.1@)) == bake_targets(
            every_recipe(*board, *ws),
            registry@,
            board.name@,
        ),
{
    let all = board.all_recipes(ws);
    let ghost rs = all@.map_values(|r: Recipe| r@);
    let mut plan: Vec<(String, String)> = Vec::new();
    let mut i: usize = 0;
    while i < all.len()
        invariant
            0 <= i <= all.len(),
            rs == all@.map_values(|r: Recipe| r@),
            rs == every_recipe(*board, *ws),
            plan@.map_values(|p: (String, String)| (p.0@, p.1@)) == bake_targets(
                rs.take(i as int),
                registry@,
                board.name@,
            ),
        decreases all.len() - i,
    {
        assert(rs.take(i + 1).drop_last() =~= rs.take(i as int));
        assert(rs.take(i + 1).last() == all@[i as int]@);
        let ghost before = plan@.map_values(|p: (String, String)| (p.0@, p.1@));
        if !all[i].dockerfile.as_str().is_empty() {
            let tag = image_tag(Some(registry), board.name.as_str(), &all[i]);
            let dockerfile = all[i].dockerfile.clone();
            plan.push((tag, dockerfile));
            assert(plan@.map_values(|p: (String, String)| (p.0@, p.1@)) =~= before.push(
                (tag@, dockerfile@),
            ));
        } else {
            assert(all@[i as int].dockerfile@.len() == 0);
            assert(before + seq![] =~= before);
        }
        i = i + 1;
    }
    assert(rs.take(all.len() as int) =~= rs);
    plan
}

/// How the image that a build runs in is obtained.
pub enum ImageStep {
    /// Pull `tag` from its registry; where the pull fails, build it from `dockerfile`
    /// and push it.
    PullOrBuildAndPush { tag: String, dockerfile: String },
    /// Build `tag` from `dockerfile` and keep it local.
    BuildLocal { tag: String, dockerfile: String },
}

impl ImageStep {
    /// The tag of the image that the step yields.
    pub fn tag(&self) -> (t: &String)
        ensures
            t == match self {
                ImageStep::PullOrBuildAndPush { tag, .. } => tag,
                ImageStep::BuildLocal { tag, .. } => tag,
            },
    {
        match self {
            ImageStep::PullOrBuildAndPush { tag, .. } => tag,
            ImageStep::BuildLocal { tag, .. } => tag,
        }
    }

    /// Whether the image still has to be built once a pull has been tried (`pulled`
    /// says whether it succeeded): for a registry image exactly when the pull failed, in
    /// which case the built image is pushed; a local image is always built.
    pub fn needs_build(&self, pulled: bool) -> (r: bool)
        ensures
            r == match self {
                ImageStep::PullOrBuildAndPush { .. } => !pulled,
                ImageStep::BuildLocal { .. } => true,
            },
    {
        match self {
            ImageStep::PullOrBuildAndPush { .. } => !pulled,
            ImageStep::BuildLocal { .. } => true,
        }
    }
}

/// The selected recipe has no Dockerfile to build an image from.
pub struct NoImage;

impl NoImage {
    /// The error's text.
    pub fn message(&self) -> (m: String)
        ensures
            m@ == "No image found"@,
    {
        "No image found".to_owned()
    }
}

/// How `fork build` obtains the image for `recipe` of `board`: refused where the
/// recipe's Dockerfile is empty; with a registry, its tag there, pulled or else built and
/// pushed; without one, its local tag, built here.
pub fn image_step(registry: Option<&str>, board: &str, recipe: &Recipe) -> (r: Result<
    ImageStep,
    NoImage,
>)
    ensures
        (r is Err) == (recipe.dockerfile@.len() == 0),
        r matches Ok(step) ==> match registry {
            Some(reg) => step matches ImageStep::PullOrBuildAndPush { tag, dockerfile } && tag@
                == tag_of(Some(reg@), board@, recipe@) && dockerfile@ == recipe.dockerfile@,
            None => step matches ImageStep::BuildLocal { tag, dockerfile } && tag@ == tag_of(
                None,
                board@,
                recipe@,
            ) && dockerfile@ == recipe.dockerfile@,
        },
{
    if recipe.dockerfile.as_str().is_empty() {
        return Err(NoImage);
    }
    let tag = image_tag(registry, board, recipe);
    let dockerfile = recipe.dockerfile.clone();
    match registry {
        Some(_) => Ok(ImageStep::PullOrBuildAndPush { tag, dockerfile }),
        None => Ok(ImageStep::BuildLocal { tag, dockerfile }),
    }
}

} // verus!
