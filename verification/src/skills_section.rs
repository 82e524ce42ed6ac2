//! What a description of a graph says of the guidance the graph carries for
//! itself: its skills and its recipes.

use crate::name_pairs::{names_le, pair_le, pair_texts, NamePair};
use crate::order::{rank_order, rank_order_is_total, sorted, Ranking};
use crate::summary::{summary, summary_of};
use crate::text::{decimal, lex_le_antisymmetric, lex_le_total, lex_le_transitive, push_number, text_eq, Text};
use crate::xml::{escaped, xml_escape};
use vstd::prelude::*;

verus! {

/// Who a description is for.
#[derive(Debug, Clone, Copy, PartialEq, Eq, Structural)]
pub enum DescribeSurface {
    /// A program that holds the graph.
    Python,
    /// A person at a command line.
    Cli,
    /// A client of a server, which has an index of its own.
    Mcp,
}

/// A skill that a graph carries.
#[derive(Debug, Clone)]
pub struct SkillRecord {
    /// The skill's name.
    pub name: String,
    /// What the skill is for.
    pub description: String,
}

/// A stored query that a graph carries.
#[derive(Debug, Clone)]
pub struct RecipeRecord {
    /// The group the query belongs to.
    pub recipe: String,
    /// The query's name.
    pub name: String,
    /// What the group is for.
    pub recipe_description: String,
}

/// Whether a place comes no later than another: by the names there, and then by
/// place.
pub open spec fn place_before(names: Seq<(Text, Text)>, a: usize, b: usize) -> bool {
    let x = name_at(names, a);
    let y = name_at(names, b);
    if x == y {
        a <= b
    } else {
        names_le(x, y)
    }
}

/// The names at a place, empty behind the last.
pub open spec fn name_at(names: Seq<(Text, Text)>, place: usize) -> (Text, Text) {
    if place < names.len() {
        names[place as int]
    } else {
        (Seq::empty(), Seq::empty())
    }
}

/// The order of places.
pub open spec fn place_order(names: Seq<(Text, Text)>) -> spec_fn(usize, usize) -> bool {
    |a: usize, b: usize| place_before(names, a, b)
}

/// The places of names, by name.
pub open spec fn places_by_name(names: Seq<(Text, Text)>) -> Seq<usize> {
    Seq::new(names.len(), |i: int| i as usize).sort_by(place_order(names))
}

struct ByNames<'a> {
    names: &'a Vec<NamePair>,
}

impl<'a> Ranking<usize> for ByNames<'a> {
    closed spec fn valid(self) -> bool {
        true
    }

    closed spec fn before(self, a: usize, b: usize) -> bool {
        place_before(pair_texts(self.names@), a, b)
    }

    proof fn total(self, a: usize, b: usize) {
        let x = name_at(pair_texts(self.names@), a);
        let y = name_at(pair_texts(self.names@), b);
        lex_le_total(x.0, y.0);
        lex_le_total(x.1, y.1);
    }

    proof fn transitive(self, a: usize, b: usize, c: usize) {
        let x = name_at(pair_texts(self.names@), a);
        let y = name_at(pair_texts(self.names@), b);
        let z = name_at(pair_texts(self.names@), c);
        crate::name_pairs::name_order_is_order();
        if x != y && y != z {
            names_in_turn(x, y, z);
        }
    }

    proof fn antisymmetric(self, a: usize, b: usize) {
        let x = name_at(pair_texts(self.names@), a);
        let y = name_at(pair_texts(self.names@), b);
        if x != y {
            if x.0 == y.0 {
                lex_le_antisymmetric(x.1, y.1);
            } else {
                lex_le_antisymmetric(x.0, y.0);
            }
        }
    }

    fn precedes(&self, a: usize, b: usize) -> (result: bool) {
        let empty: NamePair = (String::new(), String::new());
        assert(empty.0@ =~= Seq::<char>::empty());
        assert(empty.1@ =~= Seq::<char>::empty());
        let x = if a < self.names.len() {
            &self.names[a]
        } else {
            &empty
        };
        let y = if b < self.names.len() {
            &self.names[b]
        } else {
            &empty
        };
        assert((x.0@, x.1@) == name_at(pair_texts(self.names@), a));
        assert((y.0@, y.1@) == name_at(pair_texts(self.names@), b));
        if text_eq(x.0.as_str(), y.0.as_str()) && text_eq(x.1.as_str(), y.1.as_str()) {
            a <= b
        } else {
            pair_le((x.0.as_str(), x.1.as_str()), (y.0.as_str(), y.1.as_str()))
        }
    }
}

proof fn names_in_turn(x: (Text, Text), y: (Text, Text), z: (Text, Text))
    requires
        x != y,
        y != z,
        names_le(x, y),
        names_le(y, z),
    ensures
        names_le(x, z),
        x != z,
{
    if x.0 == y.0 && y.0 == z.0 {
        lex_le_transitive(x.1, y.1, z.1);
        if x.1 == z.1 {
            lex_le_antisymmetric(x.1, y.1);
        }
    } else if x.0 != y.0 && y.0 != z.0 {
        lex_le_transitive(x.0, y.0, z.0);
        if x.0 == z.0 {
            lex_le_antisymmetric(x.0, y.0);
        }
    }
}

/// Places are in a total order.
pub(crate) proof fn place_order_is_total(names: Seq<(Text, Text)>)
    ensures
        vstd::relations::total_ordering(place_order(names)),
{
    let r = place_order(names);
    crate::name_pairs::name_order_is_order();
    assert forall|a: usize| #[trigger] r(a, a) by {}
    assert forall|a: usize, b: usize| #[trigger] r(a, b) && #[trigger] r(b, a) implies a == b by {
        let x = name_at(names, a);
        let y = name_at(names, b);
        if x != y {
            if x.0 == y.0 {
                lex_le_antisymmetric(x.1, y.1);
            } else {
                lex_le_antisymmetric(x.0, y.0);
            }
        }
    }
    assert forall|a: usize, b: usize, c: usize| #[trigger]
        r(a, b) && #[trigger] r(b, c) implies r(a, c) by {
        let x = name_at(names, a);
        let y = name_at(names, b);
        let z = name_at(names, c);
        if x != y && y != z {
            names_in_turn(x, y, z);
        }
    }
    assert forall|a: usize, b: usize| #[trigger] r(a, b) || #[trigger] r(b, a) by {
        let x = name_at(names, a);
        let y = name_at(names, b);
        lex_le_total(x.0, y.0);
        lex_le_total(x.1, y.1);
    }
}

fn order_places(names: &Vec<NamePair>) -> (places: Vec<usize>)
    ensures
        places@ == places_by_name(pair_texts(names@)),
        places@.len() == names@.len(),
        forall|i: int| 0 <= i < places@.len() ==> #[trigger] places@[i] < names@.len(),
{
    let mut all: Vec<usize> = Vec::new();
    let mut i: usize = 0;
    while i < names.len()
        invariant
            i <= names@.len(),
            all@.len() == i,
            forall|k: int| 0 <= k < i ==> #[trigger] all@[k] == k,
        decreases names@.len() - i,
    {
        all.push(i);
        i = i + 1;
    }
    let ranking = ByNames { names };
    let places = sorted(&ranking, &all);
    proof {
        let texts = pair_texts(names@);
        assert(all@ =~= Seq::new(texts.len(), |i: int| i as usize));
        assert(rank_order(ranking) =~= place_order(texts));
        rank_order_is_total(ranking);
        all@.lemma_sort_by_ensures(place_order(texts));
        broadcast use vstd::seq_lib::group_to_multiset_ensures;

        assert forall|k: int| 0 <= k < places@.len() implies #[trigger] places@[k]
            < names@.len() by {
            assert(places@.to_multiset().count(places@[k]) > 0);
            assert(all@.to_multiset().count(places@[k]) > 0);
            assert(all@.contains(places@[k]));
        }
    }
    places
}

/// How a surface reads one skill, where it serves the graph's skills.
pub open spec fn fetch_text(surface: DescribeSurface, name: Text) -> Option<Text> {
    match surface {
        DescribeSurface::Python => Some("get_skill('"@ + name + "')"@),
        DescribeSurface::Cli => Some("kglite skill GRAPH "@ + name),
        DescribeSurface::Mcp => None,
    }
}

fn fetch_call(surface: DescribeSurface, name: &str) -> (call: Option<String>)
    ensures
        match call {
            Some(text) => fetch_text(surface, name@) == Some(text@),
            None => fetch_text(surface, name@) is None,
        },
{
    match surface {
        DescribeSurface::Python => {
            let mut call = "get_skill('".to_owned();
            call.append(name);
            call.append("')");
            Some(call)
        },
        DescribeSurface::Cli => {
            let mut call = "kglite skill GRAPH ".to_owned();
            call.append(name);
            Some(call)
        },
        DescribeSurface::Mcp => None,
    }
}

/// How a surface reads one stored query, where it serves the graph's recipes.
pub open spec fn recipe_fetch_text(surface: DescribeSurface) -> Option<Text> {
    match surface {
        DescribeSurface::Python => Some("get_recipe('recipe', 'name')"@),
        DescribeSurface::Cli => Some(
            "kglite query GRAPH \"MATCH (r:KgliteRecipe) RETURN r.recipe, r.name, r.cypher\""@,
        ),
        DescribeSurface::Mcp => None,
    }
}

fn recipe_fetch_call(surface: DescribeSurface) -> (call: Option<&'static str>)
    ensures
        match call {
            Some(text) => recipe_fetch_text(surface) == Some(text@),
            None => recipe_fetch_text(surface) is None,
        },
{
    match surface {
        DescribeSurface::Python => Some("get_recipe('recipe', 'name')"),
        DescribeSurface::Cli => Some(
            "kglite query GRAPH \"MATCH (r:KgliteRecipe) RETURN r.recipe, r.name, r.cypher\"",
        ),
        DescribeSurface::Mcp => None,
    }
}

/// The names of skills.
pub open spec fn skill_names(skills: Seq<SkillRecord>) -> Seq<(Text, Text)> {
    Seq::new(skills.len(), |i: int| (skills[i].name@, Seq::empty()))
}

/// The line of one skill.
pub open spec fn skill_line(skill: SkillRecord) -> Text {
    "    <skill name=\""@ + escaped(skill.name@) + "\" description=\""@ + escaped(
        summary_of(skill.description@),
    ) + "\"/>\n"@
}

/// The lines of the first `count` skills, by name.
pub open spec fn skill_lines(skills: Seq<SkillRecord>, count: nat) -> Text
    decreases count,
{
    if count == 0 {
        Seq::empty()
    } else {
        skill_lines(skills, (count - 1) as nat) + skill_line(
            skills[places_by_name(skill_names(skills))[count - 1] as int],
        )
    }
}

/// The section of skills: none where there are no skills, or the surface does
/// not serve them.
pub open spec fn skills_section(skills: Seq<SkillRecord>, surface: DescribeSurface) -> Text {
    match fetch_text(surface, "name"@) {
        None => Seq::empty(),
        Some(fetch) => if skills.len() == 0 {
            Seq::empty()
        } else {
            "  <skills count=\""@ + decimal(skills.len())
                + "\" hint=\"Methodology this graph carries for working with itself. Read one with "@
                + escaped(fetch) + ".\">\n"@ + skill_lines(skills, skills.len())
                + "  </skills>\n"@
        },
    }
}

fn name_skills(skills: &Vec<SkillRecord>) -> (names: Vec<NamePair>)
    ensures
        pair_texts(names@) == skill_names(skills@),
{
    let mut names: Vec<NamePair> = Vec::new();
    let mut i: usize = 0;
    while i < skills.len()
        invariant
            i <= skills@.len(),
            names@.len() == i,
            forall|k: int|
                0 <= k < i ==> #[trigger] pair_texts(names@)[k] == skill_names(skills@)[k],
        decreases skills@.len() - i,
    {
        let ghost before = names@;
        let nothing = String::new();
        assert(nothing@ =~= Seq::<char>::empty());
        names.push((skills[i].name.as_str().to_owned(), nothing));
        proof {
            assert forall|k: int| 0 <= k < i + 1 implies #[trigger] pair_texts(names@)[k]
                == skill_names(skills@)[k] by {
                if k < i {
                    assert(pair_texts(before)[k] == pair_texts(names@)[k]);
                }
            }
        }
        i = i + 1;
    }
    assert(pair_texts(names@) =~= skill_names(skills@));
    names
}

fn write_skills(xml: &mut String, skills: &Vec<SkillRecord>, surface: DescribeSurface)
    ensures
        final(xml)@ == old(xml)@ + skills_section(skills@, surface),
{
    let fetch = match fetch_call(surface, "name") {
        Some(fetch) => fetch,
        None => {
            assert(xml@ + Seq::<char>::empty() =~= xml@);
            return ;
        },
    };
    if skills.len() == 0 {
        assert(xml@ + Seq::<char>::empty() =~= xml@);
        return ;
    }
    let names = name_skills(skills);
    let order = order_places(&names);
    assert(names@.len() == pair_texts(names@).len());
    assert(names@.len() == skills@.len());
    let mut section = "  <skills count=\"".to_owned();
    push_number(&mut section, skills.len());
    section.append(
        "\" hint=\"Methodology this graph carries for working with itself. Read one with ",
    );
    section.append(xml_escape(fetch.as_str()).as_str());
    section.append(".\">\n");
    let ghost head = section@;
    let mut i: usize = 0;
    assert(section@ =~= head + skill_lines(skills@, 0));
    while i < order.len()
        invariant
            i <= order@.len(),
            order@.len() == skills@.len(),
            order@ == places_by_name(skill_names(skills@)),
            forall|k: int| 0 <= k < order@.len() ==> #[trigger] order@[k] < skills@.len(),
            section@ == head + skill_lines(skills@, i as nat),
        decreases order@.len() - i,
    {
        let skill = &skills[order[i]];
        let mut line = "    <skill name=\"".to_owned();
        line.append(xml_escape(skill.name.as_str()).as_str());
        line.append("\" description=\"");
        line.append(xml_escape(summary(skill.description.as_str()).as_str()).as_str());
        line.append("\"/>\n");
        section.append(line.as_str());
        proof {
            let next = skill_lines(skills@, (i + 1) as nat);
            assert(next == skill_lines(skills@, i as nat) + line@);
            assert(head + skill_lines(skills@, i as nat) + line@ =~= head + next);
        }
        i = i + 1;
    }
    section.append("  </skills>\n");
    xml.append(section.as_str());
}

/// The names of stored queries: group and name.
pub open spec fn recipe_names(recipes: Seq<RecipeRecord>) -> Seq<(Text, Text)> {
    Seq::new(recipes.len(), |i: int| (recipes[i].recipe@, recipes[i].name@))
}

/// A group of stored queries: its first query, and how many there are.
pub struct GroupModel {
    pub first: int,
    pub queries: nat,
}

/// The groups among the first `count` queries, by name: queries of a group
/// stand together, and the first one says what the group is for.
pub open spec fn recipe_groups(recipes: Seq<RecipeRecord>, count: nat) -> Seq<GroupModel>
    decreases count,
{
    if count == 0 {
        Seq::empty()
    } else {
        let before = recipe_groups(recipes, (count - 1) as nat);
        let place = places_by_name(recipe_names(recipes))[count - 1] as int;
        if before.len() > 0 && recipes[before.last().first].recipe@ == recipes[place].recipe@ {
            before.drop_last().push(
                GroupModel { queries: before.last().queries + 1, ..before.last() },
            )
        } else {
            before.push(GroupModel { first: place, queries: 1 })
        }
    }
}

/// The line of one group.
pub open spec fn recipe_line(recipes: Seq<RecipeRecord>, group: GroupModel) -> Text {
    let record = recipes[group.first];
    "    <recipe name=\""@ + escaped(record.recipe@) + "\" queries=\""@ + decimal(group.queries)
        + "\" description=\""@ + escaped(summary_of(record.recipe_description@)) + "\"/>\n"@
}

/// The lines of the first `count` groups.
pub open spec fn recipe_lines(
    recipes: Seq<RecipeRecord>,
    groups: Seq<GroupModel>,
    count: nat,
) -> Text
    decreases count,
{
    if count == 0 {
        Seq::empty()
    } else {
        recipe_lines(recipes, groups, (count - 1) as nat) + recipe_line(
            recipes,
            groups[count - 1],
        )
    }
}

/// The section of recipes, one line for each group: none where there are no
/// recipes, or the surface does not serve them.
pub open spec fn recipes_section(recipes: Seq<RecipeRecord>, surface: DescribeSurface) -> Text {
    let groups = recipe_groups(recipes, recipes.len());
    match recipe_fetch_text(surface) {
        None => Seq::empty(),
        Some(fetch) => if recipes.len() == 0 {
            Seq::empty()
        } else {
            "  <recipes count=\""@ + decimal(groups.len())
                + "\" hint=\"Named read-only queries this graph carries for itself. Read one with "@
                + escaped(fetch) + "; an MCP server serves them as run_recipe_query.\">\n"@
                + recipe_lines(recipes, groups, groups.len()) + "  </recipes>\n"@
        },
    }
}

fn name_recipes(recipes: &Vec<RecipeRecord>) -> (names: Vec<NamePair>)
    ensures
        pair_texts(names@) == recipe_names(recipes@),
{
    let mut names: Vec<NamePair> = Vec::new();
    let mut i: usize = 0;
    while i < recipes.len()
        invariant
            i <= recipes@.len(),
            names@.len() == i,
            forall|k: int|
                0 <= k < i ==> #[trigger] pair_texts(names@)[k] == recipe_names(recipes@)[k],
        decreases recipes@.len() - i,
    {
        let ghost before = names@;
        names.push((recipes[i].recipe.as_str().to_owned(), recipes[i].name.as_str().to_owned()));
        proof {
            assert forall|k: int| 0 <= k < i + 1 implies #[trigger] pair_texts(names@)[k]
                == recipe_names(recipes@)[k] by {
                if k < i {
                    assert(pair_texts(before)[k] == pair_texts(names@)[k]);
                }
            }
        }
        i = i + 1;
    }
    assert(pair_texts(names@) =~= recipe_names(recipes@));
    names
}

/// Groups as they are gathered: the place of the first query, and how many.
spec fn group_models(groups: Seq<(usize, usize)>) -> Seq<GroupModel> {
    Seq::new(
        groups.len(),
        |i: int| GroupModel { first: groups[i].0 as int, queries: groups[i].1 as nat },
    )
}

fn gather_groups(recipes: &Vec<RecipeRecord>) -> (groups: Vec<(usize, usize)>)
    ensures
        group_models(groups@) == recipe_groups(recipes@, recipes@.len()),
        forall|i: int| 0 <= i < groups@.len() ==> (#[trigger] groups@[i]).0 < recipes@.len(),
{
    let names = name_recipes(recipes);
    let order = order_places(&names);
    assert(names@.len() == pair_texts(names@).len());
    assert(names@.len() == recipes@.len());
    let mut groups: Vec<(usize, usize)> = Vec::new();
    assert(group_models(groups@) =~= recipe_groups(recipes@, 0));
    let mut i: usize = 0;
    while i < order.len()
        invariant
            i <= order@.len(),
            order@.len() == recipes@.len(),
            order@ == places_by_name(recipe_names(recipes@)),
            forall|k: int| 0 <= k < order@.len() ==> #[trigger] order@[k] < recipes@.len(),
            forall|k: int|
                0 <= k < groups@.len() ==> (#[trigger] groups@[k]).0 < recipes@.len()
                    && groups@[k].1 <= i,
            group_models(groups@) == recipe_groups(recipes@, i as nat),
        decreases order@.len() - i,
    {
        let place: usize = order[i];
        let ghost before = groups@;
        let known: usize = groups.len();
        let same = known > 0 && text_eq(
            recipes[groups[known - 1].0].recipe.as_str(),
            recipes[place].recipe.as_str(),
        );
        if same {
            let (first, queries) = groups[known - 1];
            groups.set(known - 1, (first, queries + 1));
            proof {
                let next = recipe_groups(recipes@, (i + 1) as nat);
                let last = group_models(before).last();
                assert(last.first == first && last.queries == queries);
                assert(group_models(groups@) =~= group_models(before).drop_last().push(
                    GroupModel { first: first as int, queries: (queries + 1) as nat },
                ));
            }
        } else {
            groups.push((place, 1));
            proof {
                if known > 0 {
                    assert(group_models(before).last().first == before[known - 1].0);
                }
                assert(group_models(groups@) =~= group_models(before).push(
                    GroupModel { first: place as int, queries: 1 },
                ));
            }
        }
        i = i + 1;
    }
    groups
}

fn write_recipes(xml: &mut String, recipes: &Vec<RecipeRecord>, surface: DescribeSurface)
    ensures
        final(xml)@ == old(xml)@ + recipes_section(recipes@, surface),
{
    let fetch = match recipe_fetch_call(surface) {
        Some(fetch) => fetch,
        None => {
            assert(xml@ + Seq::<char>::empty() =~= xml@);
            return ;
        },
    };
    if recipes.len() == 0 {
        assert(xml@ + Seq::<char>::empty() =~= xml@);
        return ;
    }
    let groups = gather_groups(recipes);
    let ghost models = recipe_groups(recipes@, recipes@.len());
    assert(models.len() == groups@.len());
    let mut section = "  <recipes count=\"".to_owned();
    push_number(&mut section, groups.len());
    section.append(
        "\" hint=\"Named read-only queries this graph carries for itself. Read one with ",
    );
    section.append(xml_escape(fetch).as_str());
    section.append("; an MCP server serves them as run_recipe_query.\">\n");
    let ghost head = section@;
    let mut i: usize = 0;
    assert(section@ =~= head + recipe_lines(recipes@, models, 0));
    while i < groups.len()
        invariant
            i <= groups@.len(),
            models == group_models(groups@),
            models.len() == groups@.len(),
            forall|k: int| 0 <= k < groups@.len() ==> (#[trigger] groups@[k]).0 < recipes@.len(),
            section@ == head + recipe_lines(recipes@, models, i as nat),
        decreases groups@.len() - i,
    {
        let (first, queries) = groups[i];
        assert(groups@[i as int].0 < recipes@.len());
        let record = &recipes[first];
        let mut line = "    <recipe name=\"".to_owned();
        line.append(xml_escape(record.recipe.as_str()).as_str());
        line.append("\" queries=\"");
        push_number(&mut line, queries);
        line.append("\" description=\"");
        line.append(xml_escape(summary(record.recipe_description.as_str()).as_str()).as_str());
        line.append("\"/>\n");
        section.append(line.as_str());
        proof {
            let next = recipe_lines(recipes@, models, (i + 1) as nat);
            assert(models[i as int] == GroupModel { first: first as int, queries: queries as nat });
            assert(next == recipe_lines(recipes@, models, i as nat) + line@);
            assert(head + recipe_lines(recipes@, models, i as nat) + line@ =~= head + next);
        }
        i = i + 1;
    }
    section.append("  </recipes>\n");
    xml.append(section.as_str());
}

/// Writes what a description says of the guidance a graph carries: its skills,
/// and then its recipes.
pub fn write_agent_guidance(
    xml: &mut String,
    skills: &Vec<SkillRecord>,
    recipes: &Vec<RecipeRecord>,
    surface: DescribeSurface,
)
    ensures
        final(xml)@ == old(xml)@ + skills_section(skills@, surface) + recipes_section(
            recipes@,
            surface,
        ),
{
    write_skills(xml, skills, surface);
    write_recipes(xml, recipes, surface);
}

} // verus!
