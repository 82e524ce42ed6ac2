//! What a description says of the guidance a graph carries.

use kglite::skills_section::{write_agent_guidance, DescribeSurface, RecipeRecord, SkillRecord};
use kglite::summary::summary;

fn skill(name: &str, description: &str) -> SkillRecord {
    SkillRecord { name: name.to_string(), description: description.to_string() }
}

fn recipe(recipe: &str, name: &str, group_description: &str) -> RecipeRecord {
    RecipeRecord {
        recipe: recipe.to_string(),
        name: name.to_string(),
        recipe_description: group_description.to_string(),
    }
}

fn described(
    skills: Vec<SkillRecord>,
    recipes: Vec<RecipeRecord>,
    surface: DescribeSurface,
) -> String {
    let mut xml = String::from("<graph>\n");
    write_agent_guidance(&mut xml, &skills, &recipes, surface);
    xml.push_str("</graph>\n");
    xml
}

fn describe(skills: Vec<SkillRecord>, recipes: Vec<RecipeRecord>) -> String {
    described(skills, recipes, DescribeSurface::Python)
}

/// The index is the only route an agent has to a graph's own methodology: the
/// label is hidden from every type listing, so a skill nobody can name is a
/// skill nobody can fetch.
#[test]
fn both_skills_are_indexed_in_name_order() {
    let described = describe(
        vec![
            skill("wells", "How to query wells."),
            skill("areas", "How to query areas."),
        ],
        Vec::new(),
    );
    let index = described
        .split_once("<skills ")
        .map(|(_, rest)| rest.split_once("</skills>").expect("a closed element").0)
        .unwrap_or_else(|| panic!("no skills section in: {described}"));
    assert!(index.starts_with("count=\"2\""), "got: {index}");
    let areas = index.find("name=\"areas\"").expect("areas");
    let wells = index.find("name=\"wells\"").expect("wells");
    assert!(areas < wells, "skills must be sorted by name: {index}");
    assert!(
        index.contains("description=\"How to query areas.\""),
        "{index}"
    );
}

/// A graph carrying no skill renders no element, not an empty one.
#[test]
fn a_graph_without_skills_renders_no_section() {
    let described = describe(Vec::new(), Vec::new());
    assert!(!described.contains("<skills"), "got: {described}");
    assert_eq!(described, "<graph>\n</graph>\n");
}

/// The hint has to name a call the reader can actually make, and each surface
/// spells it differently.
#[test]
fn each_surface_is_told_its_own_fetch_call() {
    for (surface, expected) in [
        (DescribeSurface::Python, "get_skill('name')"),
        (DescribeSurface::Cli, "kglite skill GRAPH name"),
    ] {
        let described =
            described(vec![skill("wells", "How to query wells.")], Vec::new(), surface);
        assert!(
            described.contains(expected),
            "{surface:?} was not told {expected}: {described}"
        );
    }
}

/// A server renders its own index from what it serves: a second one straight
/// from the graph would contradict it.
#[test]
fn the_mcp_surface_gets_no_index_from_the_graph() {
    let described = described(
        vec![skill("wells", "How to query wells.")],
        Vec::new(),
        DescribeSurface::Mcp,
    );
    assert!(!described.contains("<skills"), "got: {described}");
    assert!(!described.contains("wells"), "got: {described}");
}

/// The section lands inside an XML attribute, so a description carrying markup
/// or a newline must not break the document.
#[test]
fn a_hostile_description_stays_inside_its_attribute() {
    let described = describe(
        vec![skill("wells", "Use <MATCH> & \"quotes\"\nacross lines.")],
        Vec::new(),
    );
    let line = described
        .lines()
        .find(|line| line.contains("name=\"wells\""))
        .expect("a skill line");
    assert!(line.ends_with("/>"), "the entry must be one line: {line}");
    assert!(
        line.contains("&lt;MATCH&gt; &amp; &quot;quotes&quot;"),
        "{line}"
    );
}

/// One child per group, with its query count: an agent picks a recipe, then
/// asks the catalogue for its queries and their schemas.
#[test]
fn recipes_are_indexed_by_group_with_their_query_counts() {
    let described = describe(
        Vec::new(),
        vec![
            recipe("wells", "count", "Asking about wells."),
            recipe("wells", "deepest", "Asking about wells."),
            recipe("areas", "list", "Asking about areas."),
        ],
    );
    let index = described
        .split_once("<recipes ")
        .map(|(_, rest)| rest.split_once("</recipes>").expect("a closed element").0)
        .unwrap_or_else(|| panic!("no recipes section in: {described}"));
    assert!(index.starts_with("count=\"2\""), "got: {index}");
    let areas = index.find("name=\"areas\"").expect("areas");
    let wells = index.find("name=\"wells\"").expect("wells");
    assert!(areas < wells, "groups must be sorted by name: {index}");
    assert!(index.contains("name=\"wells\" queries=\"2\""), "{index}");
    assert!(index.contains("name=\"areas\" queries=\"1\""), "{index}");
    assert!(
        index.contains("description=\"Asking about areas.\""),
        "{index}"
    );
}

/// A graph carrying no recipe renders no element, not an empty one.
#[test]
fn a_graph_without_recipes_renders_no_section() {
    let described = describe(vec![skill("wells", "How to query wells.")], Vec::new());
    assert!(!described.contains("<recipes"), "got: {described}");
}

#[test]
fn each_surface_is_told_its_own_recipe_call() {
    for (surface, expected) in [
        (DescribeSurface::Python, "get_recipe('recipe', 'name')"),
        (DescribeSurface::Cli, "kglite query GRAPH"),
    ] {
        let described = described(
            Vec::new(),
            vec![recipe("wells", "count", "Asking about wells.")],
            surface,
        );
        assert!(
            described.contains(expected),
            "{surface:?} was not told {expected}: {described}"
        );
        assert!(described.contains("<recipes count=\"1\""), "{described}");
        assert!(described.contains("run_recipe_query"), "{described}");
    }
    let described = described(
        Vec::new(),
        vec![recipe("wells", "count", "Asking about wells.")],
        DescribeSurface::Mcp,
    );
    assert!(!described.contains("<recipes"), "got: {described}");
}

#[test]
fn the_first_query_of_a_group_by_name_describes_it() {
    let described = describe(
        Vec::new(),
        vec![
            recipe("wells", "deepest", "Said second."),
            recipe("wells", "count", "Said first."),
        ],
    );
    assert!(described.contains("description=\"Said first.\""), "{described}");
    assert!(!described.contains("Said second."), "{described}");
}

#[test]
fn a_summary_is_the_first_sentence_on_one_line() {
    assert_eq!(summary("How to query wells."), "How to query wells.");
    assert_eq!(summary("First.\nSecond line. Third."), "First.");
    let long = format!("{}\u{2026}", "x".repeat(160));
    assert_eq!(summary(&"x".repeat(400)), long);
    // A character that does not fit whole is left out.
    let wide = format!("{}\u{2026}", "\u{20ac}".repeat(53));
    assert_eq!(summary(&"\u{20ac}".repeat(100)), wide);
}
