use vstd::prelude::*;
use crate::record::Bite;
use crate::scaffold::{
    backup_path, decimal, instructions_path, manifest_path, scaffold_dir, starter_path,
};
use crate::text::{
    links_text, location, member_line, members_text, quoted_member, readme_head, readme_text,
    root_toml_head, root_toml_text, section_text,
};

verus! {

/// `t` occurs in `s` as a contiguous run.
pub open spec fn contains(s: Seq<char>, t: Seq<char>) -> bool {
    exists|k: int| 0 <= k && k + t.len() <= s.len() && #[trigger] s.subrange(k, k + t.len()) == t
}

/// A level that has a section in the index document.
pub open spec fn is_indexed_level(level: Seq<char>) -> bool {
    level == "intro"@ || level == "easy"@ || level == "medium"@
}

/// The records whose level has a section in the index document, in their order.
pub open spec fn indexed_records(bites: Seq<Bite>) -> Seq<Bite>
    decreases bites.len(),
{
    if bites.len() == 0 {
        Seq::empty()
    } else if is_indexed_level(bites.last().level@) {
        indexed_records(bites.drop_last()).push(bites.last())
    } else {
        indexed_records(bites.drop_last())
    }
}

proof fn lemma_decimal_nonempty(n: nat)
    ensures
        decimal(n).len() >= 1,
    decreases n,
{
    reveal_strlit("0");
    reveal_strlit("1");
    reveal_strlit("2");
    reveal_strlit("3");
    reveal_strlit("4");
    reveal_strlit("5");
    reveal_strlit("6");
    reveal_strlit("7");
    reveal_strlit("8");
    reveal_strlit("9");
    if n >= 10 {
        lemma_decimal_nonempty(n / 10);
    }
}

proof fn lemma_paths_distinct(now: nat)
    ensures
        backup_path(now) != manifest_path(),
        backup_path(now) != instructions_path(),
        backup_path(now) != starter_path(),
        starter_path() != manifest_path(),
        starter_path() != instructions_path(),
        manifest_path() != instructions_path(),
{
    reveal_strlit("Cargo.toml");
    reveal_strlit("bite.md");
    reveal_strlit("src/");
    reveal_strlit("lib.rs");
    reveal_strlit("lib.rs.");
    lemma_decimal_nonempty(now);
    assert(backup_path(now)[0] == 's');
    assert(starter_path()[0] == 's');
    assert(manifest_path()[0] == 'C');
    assert(instructions_path()[0] == 'b');
    assert(starter_path().len() == 10);
    assert(backup_path(now).len() >= 12);
}

/// The path names a backup of the starter file: `src/lib.rs.` followed by anything.
pub open spec fn is_backup_path(p: Seq<char>) -> bool {
    p.len() >= 11 && p.subrange(0, 11) == "src/lib.rs."@
}

/// How many backups of the starter file the exercise directory holds.
pub open spec fn backup_count(dir: Map<Seq<char>, Seq<char>>) -> nat {
    dir.dom().filter(|p: Seq<char>| is_backup_path(p)).len()
}

proof fn lemma_backup_kinds(now: nat)
    ensures
        is_backup_path(backup_path(now)),
        !is_backup_path(manifest_path()),
        !is_backup_path(instructions_path()),
        !is_backup_path(starter_path()),
{
    reveal_strlit("Cargo.toml");
    reveal_strlit("bite.md");
    reveal_strlit("src/");
    reveal_strlit("lib.rs");
    reveal_strlit("lib.rs.");
    reveal_strlit("src/lib.rs.");
    assert(backup_path(now).subrange(0, 11) =~= "src/lib.rs."@);
}

proof fn lemma_backup_count_insert(d: Set<Seq<char>>, p: Seq<char>)
    requires
        d.finite(),
    ensures
        d.insert(p).finite(),
        d.insert(p).filter(|q: Seq<char>| is_backup_path(q)).len() == d.filter(
            |q: Seq<char>| is_backup_path(q),
        ).len() + (if is_backup_path(p) && !d.contains(p) {
            1int
        } else {
            0
        }),
{
    let f = |q: Seq<char>| is_backup_path(q);
    let before = d.filter(f);
    vstd::set::axiom_set_insert_finite(d, p);
    vstd::set::axiom_set_intersect_finite(d, Set::new(f));
    if is_backup_path(p) {
        assert(d.insert(p).filter(f) =~= before.insert(p));
        vstd::set::axiom_set_insert_len(before, p);
    } else {
        assert(d.insert(p).filter(f) =~= before);
    }
}

/// Writing an exercise whose starter file does not exist yet makes no backup:
/// the directory gains only the manifest, the instructions and the starter file,
/// which holds the template.
pub proof fn lemma_fresh_starter_no_backup(dir: Map<Seq<char>, Seq<char>>, b: Bite, now: nat)
    requires
        !dir.contains_key(starter_path()),
    ensures
        scaffold_dir(dir, b, now).dom() == dir.dom().insert(manifest_path()).insert(
            instructions_path(),
        ).insert(starter_path()),
        scaffold_dir(dir, b, now)[starter_path()] == b.template@,
        dir.dom().finite() ==> backup_count(scaffold_dir(dir, b, now)) == backup_count(dir),
{
    lemma_paths_distinct(now);
    lemma_backup_kinds(now);
    assert(scaffold_dir(dir, b, now).dom() =~= dir.dom().insert(manifest_path()).insert(
        instructions_path(),
    ).insert(starter_path()));
    if dir.dom().finite() {
        lemma_backup_count_insert(dir.dom(), manifest_path());
        lemma_backup_count_insert(dir.dom().insert(manifest_path()), instructions_path());
        lemma_backup_count_insert(
            dir.dom().insert(manifest_path()).insert(instructions_path()),
            starter_path(),
        );
    }
}

/// Writing an exercise whose starter file exists makes exactly one backup, named
/// after the time of writing, holding the starter's previous contents; the starter
/// file then holds the template and every other file but the manifest and the
/// instructions is untouched.
pub proof fn lemma_rewrite_makes_one_backup(dir: Map<Seq<char>, Seq<char>>, b: Bite, now: nat)
    requires
        dir.contains_key(starter_path()),
        !dir.contains_key(backup_path(now)),
    ensures
        scaffold_dir(dir, b, now).dom() == dir.dom().insert(manifest_path()).insert(
            instructions_path(),
        ).insert(backup_path(now)),
        scaffold_dir(dir, b, now)[backup_path(now)] == dir[starter_path()],
        scaffold_dir(dir, b, now)[starter_path()] == b.template@,
        forall|k: Seq<char>|
            dir.contains_key(k) && k != manifest_path() && k != instructions_path() && k
                != starter_path() ==> #[trigger] scaffold_dir(dir, b, now)[k] == dir[k],
        dir.dom().finite() ==> backup_count(scaffold_dir(dir, b, now)) == backup_count(dir) + 1,
{
    lemma_paths_distinct(now);
    lemma_backup_kinds(now);
    assert(scaffold_dir(dir, b, now).dom() =~= dir.dom().insert(manifest_path()).insert(
        instructions_path(),
    ).insert(backup_path(now)));
    if dir.dom().finite() {
        lemma_backup_count_insert(dir.dom(), manifest_path());
        lemma_backup_count_insert(dir.dom().insert(manifest_path()), instructions_path());
        lemma_backup_count_insert(
            dir.dom().insert(manifest_path()).insert(instructions_path()),
            backup_path(now),
        );
    }
}

/// Scaffolding the same record a second time leaves the manifest and the
/// instructions as they were, puts the template back into the starter file, and
/// adds exactly one file: the backup of the starter file as the first run left it.
pub proof fn lemma_rerun_adds_one_backup(
    dir: Map<Seq<char>, Seq<char>>,
    b: Bite,
    first: nat,
    second: nat,
)
    requires
        !scaffold_dir(dir, b, first).contains_key(backup_path(second)),
    ensures
        ({
            let once = scaffold_dir(dir, b, first);
            let twice = scaffold_dir(once, b, second);
            &&& twice[manifest_path()] == once[manifest_path()]
            &&& twice[instructions_path()] == once[instructions_path()]
            &&& twice[starter_path()] == b.template@
            &&& twice.dom() == once.dom().insert(backup_path(second))
            &&& twice[backup_path(second)] == once[starter_path()]
            &&& once.dom().finite() ==> backup_count(twice) == backup_count(once) + 1
        }),
{
    let once = scaffold_dir(dir, b, first);
    lemma_paths_distinct(first);
    lemma_paths_distinct(second);
    assert(once.contains_key(manifest_path()));
    assert(once.contains_key(instructions_path()));
    assert(once.contains_key(starter_path()));
    lemma_rewrite_makes_one_backup(once, b, second);
    assert(once.dom().insert(manifest_path()).insert(instructions_path()).insert(
        backup_path(second),
    ) =~= once.dom().insert(backup_path(second)));
}

proof fn lemma_contains_within(a: Seq<char>, s: Seq<char>, c: Seq<char>, t: Seq<char>)
    requires
        contains(s, t),
    ensures
        contains(a + s + c, t),
{
    let k = choose|k: int| 0 <= k && k + t.len() <= s.len() && #[trigger] s.subrange(k, k + t.len()) == t;
    assert((a + s + c).subrange(a.len() + k, a.len() + k + t.len()) =~= t);
}

proof fn lemma_member_in_members(bites: Seq<Bite>, i: int)
    requires
        0 <= i < bites.len(),
    ensures
        contains(members_text(bites), quoted_member(bites[i])),
    decreases bites.len(),
{
    let rest = members_text(bites.drop_last());
    if i == bites.len() - 1 {
        let line = member_line(bites.last());
        let q = quoted_member(bites.last());
        assert(contains(q, q)) by {
            assert(q.subrange(0, 0 + q.len() as int) =~= q);
        }
        lemma_contains_within(rest + "    "@, q, ",\n"@, q);
        assert(rest + "    "@ + q + ",\n"@ =~= rest + line);
    } else {
        lemma_member_in_members(bites.drop_last(), i);
        lemma_contains_within(Seq::empty(), rest, member_line(bites.last()), quoted_member(bites[i]));
        assert(Seq::<char>::empty() + rest + member_line(bites.last()) =~= members_text(bites));
    }
}

/// Every record is listed, quoted as `"<level>/<slug>"`, in the workspace manifest.
pub proof fn lemma_member_listed(bites: Seq<Bite>, i: int)
    requires
        0 <= i < bites.len(),
    ensures
        contains(root_toml_text(bites), quoted_member(bites[i])),
{
    lemma_member_in_members(bites, i);
    lemma_contains_within(root_toml_head(), members_text(bites), "]"@, quoted_member(bites[i]));
}

/// With no records the workspace manifest holds an empty member list, and the index
/// document holds its three level headers with no link beneath them.
pub proof fn lemma_empty_workspace()
    ensures
        root_toml_text(Seq::empty()) == "[workspace]\nresolver = \"3\"\nmembers = [\n]"@,
        readme_text(Seq::empty()) == readme_head() + "### Level: intro\n\n"@
            + "### Level: easy\n\n"@ + "### Level: medium\n\n"@,
{
    reveal_strlit("[workspace]\nresolver = \"3\"\nmembers = [\n]");
    reveal_strlit("[workspace]\nresolver = \"3\"\nmembers = [\n");
    reveal_strlit("]");
    reveal_strlit("### Level: intro\n\n");
    reveal_strlit("### Level: easy\n\n");
    reveal_strlit("### Level: medium\n\n");
    reveal_strlit("### Level: ");
    reveal_strlit("intro");
    reveal_strlit("easy");
    reveal_strlit("medium");
    reveal_strlit("\n");
    assert(root_toml_text(Seq::empty()) =~= "[workspace]\nresolver = \"3\"\nmembers = [\n]"@);
    assert(section_text(Seq::empty(), "intro"@) =~= "### Level: intro\n\n"@);
    assert(section_text(Seq::empty(), "easy"@) =~= "### Level: easy\n\n"@);
    assert(section_text(Seq::empty(), "medium"@) =~= "### Level: medium\n\n"@);
}

proof fn lemma_links_ignore_unindexed(bites: Seq<Bite>, level: Seq<char>)
    requires
        is_indexed_level(level),
    ensures
        links_text(bites, level) == links_text(indexed_records(bites), level),
    decreases bites.len(),
{
    if bites.len() > 0 {
        lemma_links_ignore_unindexed(bites.drop_last(), level);
        if is_indexed_level(bites.last().level@) {
            assert(indexed_records(bites).drop_last() =~= indexed_records(bites.drop_last()));
        }
    }
}

/// A record whose level is none of intro, easy and medium contributes nothing to
/// the index document: it reads the same as for the records of those levels alone.
pub proof fn lemma_unindexed_levels_unlisted(bites: Seq<Bite>)
    ensures
        readme_text(bites) == readme_text(indexed_records(bites)),
{
    lemma_links_ignore_unindexed(bites, "intro"@);
    lemma_links_ignore_unindexed(bites, "easy"@);
    lemma_links_ignore_unindexed(bites, "medium"@);
}

/// The contents of the exercise directory at `loc`, empty where there is none yet.
pub open spec fn dir_at(
    ws: Map<Seq<char>, Map<Seq<char>, Seq<char>>>,
    loc: Seq<char>,
) -> Map<Seq<char>, Seq<char>> {
    if ws.contains_key(loc) {
        ws[loc]
    } else {
        Map::empty()
    }
}

/// The workspace `ws` (exercise directories by `<level>/<slug>`) after one run
/// over `bites`, record `i` being written at Unix time `times[i]`.
pub open spec fn scaffold_all(
    ws: Map<Seq<char>, Map<Seq<char>, Seq<char>>>,
    bites: Seq<Bite>,
    times: Seq<nat>,
) -> Map<Seq<char>, Map<Seq<char>, Seq<char>>>
    decreases bites.len(),
{
    if bites.len() == 0 {
        ws
    } else {
        let before = scaffold_all(ws, bites.drop_last(), times.drop_last());
        let loc = location(bites.last());
        before.insert(loc, scaffold_dir(dir_at(before, loc), bites.last(), times.last()))
    }
}

/// No two records share a location.
pub open spec fn distinct_locations(bites: Seq<Bite>) -> bool {
    forall|i: int, j: int|
        0 <= i < bites.len() && 0 <= j < bites.len() && i != j ==> location(bites[i]) != location(
            bites[j],
        )
}

proof fn lemma_scaffold_all_each(
    ws: Map<Seq<char>, Map<Seq<char>, Seq<char>>>,
    bites: Seq<Bite>,
    times: Seq<nat>,
)
    requires
        times.len() == bites.len(),
        distinct_locations(bites),
    ensures
        forall|i: int|
            0 <= i < bites.len() ==> #[trigger] dir_at(scaffold_all(ws, bites, times), location(bites[i]))
                == scaffold_dir(dir_at(ws, location(bites[i])), bites[i], times[i]),
        forall|loc: Seq<char>|
            (forall|i: int| 0 <= i < bites.len() ==> location(#[trigger] bites[i]) != loc) ==> dir_at(
                scaffold_all(ws, bites, times),
                loc,
            ) == #[trigger] dir_at(ws, loc),
    decreases bites.len(),
{
    if bites.len() > 0 {
        let rest = bites.drop_last();
        assert(distinct_locations(rest)) by {
            assert forall|i: int, j: int|
                0 <= i < rest.len() && 0 <= j < rest.len() && i != j implies location(rest[i])
                != location(rest[j]) by {
                assert(rest[i] == bites[i] && rest[j] == bites[j]);
            }
        }
        lemma_scaffold_all_each(ws, rest, times.drop_last());
        let n = bites.len() - 1;
        assert forall|i: int| 0 <= i < bites.len() implies #[trigger] dir_at(
            scaffold_all(ws, bites, times),
            location(bites[i]),
        ) == scaffold_dir(dir_at(ws, location(bites[i])), bites[i], times[i]) by {
            let before = scaffold_all(ws, rest, times.drop_last());
            if i < n {
                assert(rest[i] == bites[i]);
                assert(location(bites[i]) != location(bites[n]));
                assert(times.drop_last()[i] == times[i]);
                assert(dir_at(before, location(rest[i])) == scaffold_dir(
                    dir_at(ws, location(rest[i])),
                    rest[i],
                    times.drop_last()[i],
                ));
                assert(dir_at(scaffold_all(ws, bites, times), location(bites[i])) == dir_at(
                    before,
                    location(bites[i]),
                ));
            } else {
                assert(forall|k: int| 0 <= k < rest.len() ==> location(#[trigger] rest[k]) != location(bites[n])) by {
                    assert forall|k: int| 0 <= k < rest.len() implies location(#[trigger] rest[k]) != location(bites[n]) by {
                        assert(rest[k] == bites[k]);
                    }
                }
                assert(dir_at(before, location(bites[n])) == dir_at(ws, location(bites[n])));
            }
        }
        assert forall|loc: Seq<char>|
            (forall|i: int| 0 <= i < bites.len() ==> location(#[trigger] bites[i]) != loc) implies dir_at(
            scaffold_all(ws, bites, times),
            loc,
        ) == #[trigger] dir_at(ws, loc) by {
            assert(location(bites[n]) != loc);
            assert forall|i: int| 0 <= i < rest.len() implies location(#[trigger] rest[i]) != loc by {
                assert(rest[i] == bites[i]);
            }
        }
    }
}

/// Running the scaffolder a second time over the same records, none of which
/// shares its location with another, leaves every manifest and instructions file
/// as the first run left it and adds to each exercise directory exactly one file:
/// the backup of its starter file, named after the time of the second run.
pub proof fn lemma_rerun_all_adds_one_backup_each(
    ws: Map<Seq<char>, Map<Seq<char>, Seq<char>>>,
    bites: Seq<Bite>,
    first: Seq<nat>,
    second: Seq<nat>,
)
    requires
        first.len() == bites.len(),
        second.len() == bites.len(),
        distinct_locations(bites),
        forall|i: int|
            0 <= i < bites.len() ==> !#[trigger] dir_at(scaffold_all(ws, bites, first), location(bites[i])).contains_key(
                backup_path(second[i]),
            ),
    ensures
        forall|i: int|
            0 <= i < bites.len() ==> {
                let once = dir_at(scaffold_all(ws, bites, first), location(bites[i]));
                let twice = #[trigger] dir_at(
                    scaffold_all(scaffold_all(ws, bites, first), bites, second),
                    location(bites[i]),
                );
                &&& twice[manifest_path()] == once[manifest_path()]
                &&& twice[instructions_path()] == once[instructions_path()]
                &&& twice[starter_path()] == bites[i].template@
                &&& twice.dom() == once.dom().insert(backup_path(second[i]))
                &&& twice[backup_path(second[i])] == once[starter_path()]
                &&& once.dom().finite() ==> backup_count(twice) == backup_count(once) + 1
            },
{
    let ws1 = scaffold_all(ws, bites, first);
    lemma_scaffold_all_each(ws, bites, first);
    lemma_scaffold_all_each(ws1, bites, second);
    assert forall|i: int| 0 <= i < bites.len() implies {
        let once = dir_at(ws1, location(bites[i]));
        let twice = #[trigger] dir_at(scaffold_all(ws1, bites, second), location(bites[i]));
        &&& twice[manifest_path()] == once[manifest_path()]
        &&& twice[instructions_path()] == once[instructions_path()]
        &&& twice[starter_path()] == bites[i].template@
        &&& twice.dom() == once.dom().insert(backup_path(second[i]))
        &&& twice[backup_path(second[i])] == once[starter_path()]
        &&& once.dom().finite() ==> backup_count(twice) == backup_count(once) + 1
    } by {
        let d0 = dir_at(ws, location(bites[i]));
        assert(dir_at(ws1, location(bites[i])) == scaffold_dir(d0, bites[i], first[i]));
        lemma_rerun_adds_one_backup(d0, bites[i], first[i], second[i]);
    }
}

} // verus!
