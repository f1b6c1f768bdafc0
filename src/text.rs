use vstd::prelude::*;
use crate::record::Bite;

verus! {

/// `"<level>/<slug>"`, the location of an exercise relative to the workspace root.
pub open spec fn location(b: Bite) -> Seq<char> {
    b.level@ + "/"@ + b.slug@
}

/// The member entry of an exercise, quoted as it appears in the workspace manifest.
pub open spec fn quoted_member(b: Bite) -> Seq<char> {
    "\""@ + location(b) + "\""@
}

/// One line of the workspace manifest's member list.
pub open spec fn member_line(b: Bite) -> Seq<char> {
    "    "@ + quoted_member(b) + ",\n"@
}

/// The member lines of all records, in record order.
pub open spec fn members_text(bites: Seq<Bite>) -> Seq<char>
    decreases bites.len(),
{
    if bites.len() == 0 {
        Seq::empty()
    } else {
        members_text(bites.drop_last()) + member_line(bites.last())
    }
}

pub open spec fn root_toml_head() -> Seq<char> {
    "[workspace]\nresolver = \"3\"\nmembers = [\n"@
}

/// The workspace manifest listing every record as a member.
pub open spec fn root_toml_text(bites: Seq<Bite>) -> Seq<char> {
    root_toml_head() + members_text(bites) + "]"@
}

fn member_line_string(b: &Bite) -> (r: String)
    ensures
        r@ == member_line(*b),
{
    let mut q = String::from_str("\"");
    q.append(b.level.as_str());
    q.append("/");
    q.append(b.slug.as_str());
    q.append("\"");
    let mut line = String::from_str("    ");
    line.append(q.as_str());
    line.append(",\n");
    proof {
        assert(q@ =~= quoted_member(*b));
    }
    line
}

/// The text of the workspace manifest for `bites`.
pub fn root_toml_content(bites: &Vec<Bite>) -> (r: String)
    ensures
        r@ == root_toml_text(bites@),
{
    let mut members = String::new();
    let mut i: usize = 0;
    while i < bites.len()
        invariant
            i <= bites.len(),
            members@ == members_text(bites@.subrange(0, i as int)),
        decreases bites.len() - i,
    {
        let line = member_line_string(&bites[i]);
        members.append(line.as_str());
        proof {
            assert(bites@.subrange(0, i + 1).drop_last() =~= bites@.subrange(0, i as int));
        }
        i = i + 1;
    }
    proof {
        assert(bites@.subrange(0, bites.len() as int) =~= bites@);
    }
    let mut out = String::from_str("[workspace]\nresolver = \"3\"\nmembers = [\n");
    out.append(members.as_str());
    out.append("]");
    out
}

/// The link line of an exercise in the index document.
pub open spec fn link_line(b: Bite) -> Seq<char> {
    "- ["@ + location(b) + "]("@ + location(b) + "/bite.md)\n"@
}

/// The link lines of the records whose level is exactly `level`, in record order.
pub open spec fn links_text(bites: Seq<Bite>, level: Seq<char>) -> Seq<char>
    decreases bites.len(),
{
    if bites.len() == 0 {
        Seq::empty()
    } else if bites.last().level@ == level {
        links_text(bites.drop_last(), level) + link_line(bites.last())
    } else {
        links_text(bites.drop_last(), level)
    }
}

/// One section of the index document: its header, then its links.
pub open spec fn section_text(bites: Seq<Bite>, level: Seq<char>) -> Seq<char> {
    "### Level: "@ + level + "\n"@ + links_text(bites, level) + "\n"@
}

pub open spec fn readme_head() -> Seq<char> {
    "# Pybites Rust\n\nhttps://rustplatform.com/\n\n\n## Exercises\n\n"@
}

/// The index document: the fixed heading, then one section per known level,
/// in the order intro, easy, medium.
pub open spec fn readme_text(bites: Seq<Bite>) -> Seq<char> {
    readme_head() + section_text(bites, "intro"@) + section_text(bites, "easy"@) + section_text(
        bites,
        "medium"@,
    )
}

fn link_line_string(b: &Bite) -> (r: String)
    ensures
        r@ == link_line(*b),
{
    let mut loc = b.level.clone();
    loc.append("/");
    loc.append(b.slug.as_str());
    let mut line = String::from_str("- [");
    line.append(loc.as_str());
    line.append("](");
    line.append(loc.as_str());
    line.append("/bite.md)\n");
    line
}

/// The section of the index document for `level`.
pub fn level_section(bites: &Vec<Bite>, level: &str) -> (r: String)
    ensures
        r@ == section_text(bites@, level@),
{
    let wanted = String::from_str(level);
    let mut links = String::new();
    let mut i: usize = 0;
    while i < bites.len()
        invariant
            i <= bites.len(),
            wanted@ == level@,
            links@ == links_text(bites@.subrange(0, i as int), level@),
        decreases bites.len() - i,
    {
        proof {
            assert(bites@.subrange(0, i + 1).drop_last() =~= bites@.subrange(0, i as int));
        }
        if bites[i].level == wanted {
            let line = link_line_string(&bites[i]);
            links.append(line.as_str());
        }
        i = i + 1;
    }
    proof {
        assert(bites@.subrange(0, bites.len() as int) =~= bites@);
    }
    let mut out = String::from_str("### Level: ");
    out.append(level);
    out.append("\n");
    out.append(links.as_str());
    out.append("\n");
    out
}

/// The text of the index document for `bites`.
pub fn root_readme_content(bites: &Vec<Bite>) -> (r: String)
    ensures
        r@ == readme_text(bites@),
{
    let mut out = String::from_str("# Pybites Rust\n\nhttps://rustplatform.com/\n\n\n## Exercises\n\n");
    let intro = level_section(bites, "intro");
    out.append(intro.as_str());
    let easy = level_section(bites, "easy");
    out.append(easy.as_str());
    let medium = level_section(bites, "medium");
    out.append(medium.as_str());
    out
}

/// The package manifest of an exercise: named after its slug, with the
/// libraries text appended verbatim as its dependency block.
pub open spec fn toml_text(slug: Seq<char>, libraries: Seq<char>) -> Seq<char> {
    "[package]\nname = \""@ + slug + "\"\nversion = \"0.1.0\"\nedition = \"2024\"\n\n[dependencies]\n"@
        + libraries
}

/// The text of an exercise's package manifest.
pub fn toml_content(slug: &str, libraries: &String) -> (r: String)
    ensures
        r@ == toml_text(slug@, libraries@),
{
    let mut out = String::from_str("[package]\nname = \"");
    out.append(slug);
    out.append("\"\nversion = \"0.1.0\"\nedition = \"2024\"\n\n[dependencies]\n");
    out.append(libraries.as_str());
    out
}

/// The instructions document of an exercise.
pub open spec fn markdown_text(
    name: Seq<char>,
    description: Seq<char>,
    level: Seq<char>,
    author: Seq<char>,
) -> Seq<char> {
    "# "@ + name + "\n\n- Level: "@ + level + "\n- Author: "@ + author + "\n\n## Instructions\n"@
        + description + "\n"@
}

/// The text of an exercise's instructions document.
pub fn markdown_content(name: &str, description: &str, level: &str, author: &str) -> (r: String)
    ensures
        r@ == markdown_text(name@, description@, level@, author@),
{
    let mut out = String::from_str("# ");
    out.append(name);
    out.append("\n\n- Level: ");
    out.append(level);
    out.append("\n- Author: ");
    out.append(author);
    out.append("\n\n## Instructions\n");
    out.append(description);
    out.append("\n");
    out
}

pub open spec fn authenticated_text() -> Seq<char> {
    "Authenticating with API key"@
}

pub open spec fn anonymous_text() -> Seq<char> {
    "No API key set (PYBITES_API_KEY), downloading free exercises only"@
}

/// The status line telling whether a credential was supplied.
pub fn auth_status_message(api_key: &Option<String>) -> (r: &'static str)
    ensures
        r@ == (if api_key.is_some() { authenticated_text() } else { anonymous_text() }),
{
    if api_key.is_some() {
        "Authenticating with API key"
    } else {
        "No API key set (PYBITES_API_KEY), downloading free exercises only"
    }
}

} // verus!
