//! What is said of a graph's stores, skills and recipes.

use crate::catalog::lookup;
use crate::embeddings_view::{
    embeddings_attribute, semantic_text, store_elements, store_labels, view_columns,
};
use crate::graph::DirGraph;
use crate::hints::{known_stores, other_of, store_hint_text, Surface};
use crate::inventory::EmbeddingEntity;
use crate::name_pairs::{columns_under, names_le, stores_on, types_over};
use crate::names::{column_of, store_name_of};
use crate::query_laws::a_listing_is_picked_in_order;
use crate::skills_section::{
    place_before, place_order, places_by_name, recipe_groups, recipe_lines, recipe_names,
    recipes_section, skill_lines, skill_names, skills_section, DescribeSurface, GroupModel,
    RecipeRecord, SkillRecord,
};
use crate::suggest::{closest, suggestion};
use crate::summary::summary_of;
use crate::text::{decimal, joined, Text};
use crate::xml::escaped;
use vstd::prelude::*;

verus! {

/// The columns that are shown for a type are those of its stores, in order.
pub proof fn a_view_shows_the_columns_of_its_type(graph: DirGraph, connection_type: Text)
    ensures
        view_columns(graph, connection_type) == stores_on(graph.edge_embeddings@).filter_map(
            |p: (Text, Text)|
                if p.0 == connection_type {
                    Some(p.1)
                } else {
                    None
                },
        ),
{
    let pairs = stores_on(graph.edge_embeddings@);
    a_listing_is_picked_in_order(pairs, connection_type, connection_type, pairs.len());
    assert(pairs.take(pairs.len() as int) =~= pairs);
}

/// A type's stores are shown in an attribute, each as its column with its dimension
/// and the number of its vectors, with commas between; there is no attribute where
/// there is no store. They are shown as elements one after the other.
pub proof fn a_view_shows_every_store(graph: DirGraph, connection_type: Text, count: nat)
    requires
        count < view_columns(graph, connection_type).len(),
    ensures
        ({
            let columns = view_columns(graph, connection_type);
            let column = columns[count as int];
            let store = lookup(
                graph.edge_embeddings@,
                connection_type,
                store_name_of(column),
            )->0;
            &&& store_labels(graph, connection_type).len() == columns.len()
            &&& store_labels(graph, connection_type)[count as int] == escaped(column) + "(dim="@
                + decimal(store.dimension as nat) + ",count="@ + decimal(store.nodes.len()) + ")"@
            &&& embeddings_attribute(graph, connection_type) == " embeddings=\""@ + joined(
                store_labels(graph, connection_type),
                ","@,
            ) + "\""@
            &&& store_elements(graph, connection_type, count + 1) == store_elements(
                graph,
                connection_type,
                count,
            ) + ("    <embeddings text_col=\""@ + escaped(column) + "\" dim=\""@ + decimal(
                store.dimension as nat,
            ) + "\" count=\""@ + decimal(store.nodes.len()) + "\"/>\n"@)
        }),
{
}

/// There is nothing to show of a type without a store, and a graph without a store
/// has no hint on what can be asked.
pub proof fn no_store_is_not_shown(graph: DirGraph, connection_type: Text)
    ensures
        view_columns(graph, connection_type).len() == 0 ==> embeddings_attribute(
            graph,
            connection_type,
        ).len() == 0,
        store_elements(graph, connection_type, 0).len() == 0,
        semantic_text(graph) is None <==> graph.embeddings@.len() == 0
            && graph.edge_embeddings@.len() == 0,
{
}

/// What a missing store is answered with: the column where a store's own name was
/// given and that store exists; else that the other kind has such a store; else the
/// closest column of the type; else the closest type of the column; else the
/// columns of the type. Nothing is said where there is no store at all.
pub proof fn a_missing_store_is_answered_with_what_is_nearest(
    known: Seq<(Text, Text)>,
    elsewhere: Seq<(Text, Text)>,
    entity: EmbeddingEntity,
    ty: Text,
    col: Text,
    surface: Surface,
)
    ensures
        ({
            let hint = store_hint_text(known, elsewhere, entity, ty, col, surface);
            let columns = columns_under(known, ty, known.len());
            let types = types_over(known, col, known.len());
            let own = column_of(col) is Some && known.contains((ty, column_of(col)->0));
            let other = elsewhere.contains((ty, col));
            let column = closest(col, columns, columns.len());
            let owner = closest(ty, types, types.len());
            &&& own ==> hint == " Did you mean '"@ + column_of(col)->0 + "'? The text column is '"@
                + column_of(col)->0 + "'; '"@ + col + "' is the embedding store's own name."@
            &&& !own && !other && column is Some ==> hint == " Did you mean '"@ + column->0 + "'?"@
            &&& !own && !other && column is None && owner is Some ==> hint == " Did you mean '"@
                + owner->0 + "'?"@
            &&& !own && !other && known.len() == 0 ==> hint.len() == 0
        }),
{
    let columns = columns_under(known, ty, known.len());
    let types = types_over(known, col, known.len());
    if let Some(column) = closest(col, columns, columns.len()) {
        a_suggestion_says_something(col, columns);
    }
    if let Some(owner) = closest(ty, types, types.len()) {
        a_suggestion_says_something(ty, types);
    }
    if known.len() == 0 {
        assert(columns.len() == 0);
        assert(types.len() == 0);
    }
}

proof fn a_suggestion_says_something(name: Text, candidates: Seq<Text>)
    requires
        closest(name, candidates, candidates.len()) is Some,
    ensures
        suggestion(name, candidates).len() > 0,
{
    reveal_strlit(" Did you mean '");
}

/// The other kind of a kind is the other one, and each kind knows its own stores.
pub proof fn each_kind_knows_its_stores(graph: DirGraph)
    ensures
        other_of(EmbeddingEntity::Node) == EmbeddingEntity::Relationship,
        other_of(EmbeddingEntity::Relationship) == EmbeddingEntity::Node,
        known_stores(graph, EmbeddingEntity::Node) == stores_on(graph.embeddings@),
        known_stores(graph, EmbeddingEntity::Relationship) == stores_on(graph.edge_embeddings@),
{
}

/// The section of skills counts them and lists each by its name, with one line about
/// it; it is left out where there are none, and where the surface serves them
/// itself.
pub proof fn the_skills_are_listed(skills: Seq<SkillRecord>, count: nat)
    requires
        count < skills.len(),
    ensures
        skills_section(skills, DescribeSurface::Mcp).len() == 0,
        skills_section(Seq::empty(), DescribeSurface::Python).len() == 0,
        skills_section(Seq::empty(), DescribeSurface::Cli).len() == 0,
        skills_section(skills, DescribeSurface::Python) == "  <skills count=\""@ + decimal(
            skills.len(),
        ) + "\" hint=\"Methodology this graph carries for working with itself. Read one with "@
            + escaped("get_skill('"@ + "name"@ + "')"@) + ".\">\n"@ + skill_lines(
            skills,
            skills.len(),
        ) + "  </skills>\n"@,
        skills_section(skills, DescribeSurface::Cli) == "  <skills count=\""@ + decimal(
            skills.len(),
        ) + "\" hint=\"Methodology this graph carries for working with itself. Read one with "@
            + escaped("kglite skill GRAPH "@ + "name"@) + ".\">\n"@ + skill_lines(
            skills,
            skills.len(),
        ) + "  </skills>\n"@,
        ({
            let skill = skills[places_by_name(skill_names(skills))[count as int] as int];
            skill_lines(skills, count + 1) == skill_lines(skills, count)
                + ("    <skill name=\""@ + escaped(skill.name@) + "\" description=\""@ + escaped(
                summary_of(skill.description@),
            ) + "\"/>\n"@)
        }),
{
}

/// Names are placed by name, and where they are the same as they came: every place
/// once.
pub proof fn names_are_placed_in_order(names: Seq<(Text, Text)>)
    requires
        names.len() <= usize::MAX,
    ensures
        ({
            let places = places_by_name(names);
            &&& places.len() == names.len()
            &&& places.no_duplicates()
            &&& forall|i: int| 0 <= i < places.len() ==> (#[trigger] places[i]) < names.len()
            &&& forall|i: int, j: int|
                0 <= i < j < places.len() ==> {
                    let a = names[(#[trigger] places[i]) as int];
                    let b = names[(#[trigger] places[j]) as int];
                    if a == b {
                        places[i] <= places[j]
                    } else {
                        names_le(a, b)
                    }
                }
        }),
{
    let all = Seq::new(names.len(), |i: int| i as usize);
    let r = place_order(names);
    let places = places_by_name(names);
    crate::skills_section::place_order_is_total(names);
    all.lemma_sort_by_ensures(r);
    all.to_multiset_ensures();
    places.to_multiset_ensures();
    assert(all.no_duplicates()) by {
        assert forall|i: int, j: int| 0 <= i < all.len() && 0 <= j < all.len() && i != j implies all[i]
            != all[j] by {}
    }
    all.lemma_multiset_has_no_duplicates();
    assert forall|x: usize| places.to_multiset().contains(x) implies places.to_multiset().count(x)
        == 1 by {
        assert(all.to_multiset().contains(x));
    }
    places.lemma_multiset_has_no_duplicates_conv();
    assert(places.len() == names.len()) by {
        assert(places.len() == places.to_multiset().len());
        assert(all.len() == all.to_multiset().len());
    }
    assert forall|i: int| 0 <= i < places.len() implies (#[trigger] places[i]) < names.len() by {
        assert(places.contains(places[i]));
        assert(all.contains(places[i]));
    }
    assert forall|i: int, j: int| 0 <= i < j < places.len() implies {
        let a = names[(#[trigger] places[i]) as int];
        let b = names[(#[trigger] places[j]) as int];
        if a == b {
            places[i] <= places[j]
        } else {
            names_le(a, b)
        }
    } by {
        assert(r(places[i], places[j]));
        assert(place_before(names, places[i], places[j]));
    }
}

/// The section of recipes is left out where there are none, and where the surface
/// serves them itself. It counts the groups and has a line for each, with its name,
/// the number of its queries, and one line about it.
pub proof fn the_recipes_are_listed(recipes: Seq<RecipeRecord>, groups: Seq<GroupModel>, count: nat)
    requires
        count < groups.len(),
    ensures
        recipes_section(recipes, DescribeSurface::Mcp).len() == 0,
        recipes_section(Seq::empty(), DescribeSurface::Python).len() == 0,
        recipes_section(Seq::empty(), DescribeSurface::Cli).len() == 0,
        ({
            let record = recipes[groups[count as int].first];
            recipe_lines(recipes, groups, count + 1) == recipe_lines(recipes, groups, count)
                + ("    <recipe name=\""@ + escaped(record.recipe@) + "\" queries=\""@ + decimal(
                groups[count as int].queries,
            ) + "\" description=\""@ + escaped(summary_of(record.recipe_description@))
                + "\"/>\n"@)
        }),
{
}

/// How many queries the first groups have.
pub open spec fn queries_in(groups: Seq<GroupModel>) -> nat
    decreases groups.len(),
{
    if groups.len() == 0 {
        0
    } else {
        queries_in(groups.drop_last()) + groups.last().queries
    }
}

/// Every query is counted in a group, no group is empty, and two groups that stand
/// side by side have different names.
pub proof fn every_query_is_in_a_group(recipes: Seq<RecipeRecord>, count: nat)
    requires
        count <= recipes.len(),
    ensures
        ({
            let groups = recipe_groups(recipes, count);
            &&& queries_in(groups) == count
            &&& forall|i: int| 0 <= i < groups.len() ==> (#[trigger] groups[i]).queries > 0
            &&& forall|i: int|
                0 < i < groups.len() ==> recipes[(#[trigger] groups[i]).first].recipe@
                    != recipes[groups[i - 1].first].recipe@
            &&& count > 0 ==> groups.len() > 0 && recipes[groups.last().first].recipe@
                == recipes[places_by_name(recipe_names(recipes))[count - 1] as int].recipe@
        }),
    decreases count,
{
    let groups = recipe_groups(recipes, count);
    if count > 0 {
        let k = (count - 1) as nat;
        every_query_is_in_a_group(recipes, k);
        let before = recipe_groups(recipes, k);
        let place = places_by_name(recipe_names(recipes))[k as int] as int;
        if before.len() > 0 && recipes[before.last().first].recipe@ == recipes[place].recipe@ {
            assert(groups.drop_last() =~= before.drop_last());
            assert(groups.last().queries == before.last().queries + 1);
            assert forall|i: int| 0 < i < groups.len() implies recipes[(
            #[trigger] groups[i]).first].recipe@ != recipes[groups[i - 1].first].recipe@ by {
                assert(groups[i].first == before[i].first);
                assert(groups[i - 1].first == before[i - 1].first);
            }
        } else {
            assert(groups.drop_last() =~= before);
            assert forall|i: int| 0 < i < groups.len() implies recipes[(
            #[trigger] groups[i]).first].recipe@ != recipes[groups[i - 1].first].recipe@ by {
                if i < before.len() {
                    assert(groups[i] == before[i]);
                }
                assert(groups[i - 1] == before[i - 1]);
            }
        }
    }
}

} // verus!
