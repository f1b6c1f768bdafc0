use vstd::prelude::*;
use crate::record::Bite;
use crate::text::{location, markdown_content, markdown_text, toml_content, toml_text};

verus! {

/// The decimal text of one digit.
pub open spec fn digit_text(d: nat) -> Seq<char> {
    if d == 0 {
        "0"@
    } else if d == 1 {
        "1"@
    } else if d == 2 {
        "2"@
    } else if d == 3 {
        "3"@
    } else if d == 4 {
        "4"@
    } else if d == 5 {
        "5"@
    } else if d == 6 {
        "6"@
    } else if d == 7 {
        "7"@
    } else if d == 8 {
        "8"@
    } else {
        "9"@
    }
}

/// The decimal text of `n`, without leading zeros.
pub open spec fn decimal(n: nat) -> Seq<char>
    decreases n,
{
    if n < 10 {
        digit_text(n)
    } else {
        decimal(n / 10) + digit_text(n % 10)
    }
}

fn digit_string(d: u64) -> (r: String)
    requires
        d < 10,
    ensures
        r@ == digit_text(d as nat),
{
    if d == 0 {
        String::from_str("0")
    } else if d == 1 {
        String::from_str("1")
    } else if d == 2 {
        String::from_str("2")
    } else if d == 3 {
        String::from_str("3")
    } else if d == 4 {
        String::from_str("4")
    } else if d == 5 {
        String::from_str("5")
    } else if d == 6 {
        String::from_str("6")
    } else if d == 7 {
        String::from_str("7")
    } else if d == 8 {
        String::from_str("8")
    } else {
        String::from_str("9")
    }
}

/// The decimal text of `n`.
pub fn decimal_string(n: u64) -> (r: String)
    ensures
        r@ == decimal(n as nat),
    decreases n,
{
    if n < 10 {
        digit_string(n)
    } else {
        let mut s = decimal_string(n / 10);
        let d = digit_string(n % 10);
        s.append(d.as_str());
        s
    }
}

/// Name of the starter file inside an exercise's source directory.
pub open spec fn starter_name() -> Seq<char> {
    "lib.rs"@
}

/// Name under which a starter file is kept when it is replaced at Unix time `now`.
pub open spec fn backup_name(now: nat) -> Seq<char> {
    "lib.rs."@ + decimal(now)
}

/// The backup name for a starter file replaced at Unix time `now` (seconds).
pub fn backup_file_name(now: u64) -> (r: String)
    ensures
        r@ == backup_name(now as nat),
{
    let mut s = String::from_str("lib.rs.");
    let digits = decimal_string(now);
    s.append(digits.as_str());
    s
}

// The files of one exercise directory, by their paths relative to it.
pub open spec fn manifest_path() -> Seq<char> {
    "Cargo.toml"@
}

pub open spec fn instructions_path() -> Seq<char> {
    "bite.md"@
}

pub open spec fn starter_path() -> Seq<char> {
    "src/"@ + starter_name()
}

pub open spec fn backup_path(now: nat) -> Seq<char> {
    "src/"@ + backup_name(now)
}

/// What to write for one exercise.
pub struct ExercisePlan {
    /// `<level>/<slug>`, relative to the workspace root.
    pub dir: String,
    pub manifest: String,
    pub instructions: String,
    /// Where to rename the existing starter file (inside `src/`), if there is one.
    pub backup: Option<String>,
    pub starter: String,
}

/// The exercise directory `dir` (a map from relative path to contents)
/// after `plan` has been carried out on it.
pub open spec fn apply_plan(dir: Map<Seq<char>, Seq<char>>, plan: ExercisePlan) -> Map<
    Seq<char>,
    Seq<char>,
> {
    let written = dir.insert(manifest_path(), plan.manifest@).insert(
        instructions_path(),
        plan.instructions@,
    );
    let kept = match plan.backup {
        Some(b) => if written.contains_key(starter_path()) {
            written.remove(starter_path()).insert("src/"@ + b@, written[starter_path()])
        } else {
            written
        },
        None => written,
    };
    kept.insert(starter_path(), plan.starter@)
}

/// The exercise directory `dir` after scaffolding record `b` into it at Unix time `now`:
/// manifest and instructions overwritten, an existing starter file renamed to its
/// backup name, and a fresh starter file holding the record's template.
pub open spec fn scaffold_dir(dir: Map<Seq<char>, Seq<char>>, b: Bite, now: nat) -> Map<
    Seq<char>,
    Seq<char>,
> {
    let written = dir.insert(manifest_path(), toml_text(b.slug@, b.libraries@)).insert(
        instructions_path(),
        markdown_text(b.name@, b.description@, b.level@, b.author@),
    );
    let kept = if written.contains_key(starter_path()) {
        written.remove(starter_path()).insert(backup_path(now), written[starter_path()])
    } else {
        written
    };
    kept.insert(starter_path(), b.template@)
}

/// `<level>/<slug>`: where the record's exercise directory lies in the workspace.
pub fn exercise_dir(b: &Bite) -> (r: String)
    ensures
        r@ == location(*b),
{
    let mut dir = b.level.clone();
    dir.append("/");
    dir.append(b.slug.as_str());
    dir
}

/// The plan for scaffolding `b` at Unix time `now`, where `starter_exists` tells
/// whether the exercise's starter file is already on disk.
pub fn plan_exercise(b: &Bite, starter_exists: bool, now: u64) -> (r: ExercisePlan)
    ensures
        r.dir@ == location(*b),
        r.manifest@ == toml_text(b.slug@, b.libraries@),
        r.instructions@ == markdown_text(b.name@, b.description@, b.level@, b.author@),
        r.starter@ == b.template@,
        r.backup is Some <==> starter_exists,
        r.backup is Some ==> r.backup->0@ == backup_name(now as nat),
        forall|dir: Map<Seq<char>, Seq<char>>|
            dir.contains_key(starter_path()) == starter_exists ==> #[trigger] apply_plan(dir, r)
                == scaffold_dir(dir, *b, now as nat),
{
    let dir = exercise_dir(b);
    let manifest = toml_content(b.slug.as_str(), &b.libraries);
    let instructions = markdown_content(
        b.name.as_str(),
        b.description.as_str(),
        b.level.as_str(),
        b.author.as_str(),
    );
    let backup = if starter_exists {
        Some(backup_file_name(now))
    } else {
        None
    };
    let r = ExercisePlan { dir, manifest, instructions, backup, starter: b.template.clone() };
    proof {
        assert forall|d: Map<Seq<char>, Seq<char>>|
            d.contains_key(starter_path()) == starter_exists implies #[trigger] apply_plan(d, r)
            == scaffold_dir(d, *b, now as nat) by {
            let w = d.insert(manifest_path(), r.manifest@).insert(instructions_path(), r.instructions@);
            assert(w.contains_key(starter_path()) == d.contains_key(starter_path())) by {
                reveal_strlit("Cargo.toml");
                reveal_strlit("bite.md");
                reveal_strlit("src/");
                reveal_strlit("lib.rs");
                assert(starter_path()[0] == 's');
                assert(manifest_path()[0] == 'C');
                assert(instructions_path()[0] == 'b');
            }
        }
    }
    r
}

} // verus!
