//! The names of embedding stores.
use vstd::prelude::*;
use crate::text::{chars_of, Text};

verus! {

/// The store name of a text column.
pub open spec fn store_name_of(text_column: Text) -> Text {
    text_column + "_emb"@
}

/// The text column a store name was made from, if it was made from one.
pub open spec fn column_of(store: Text) -> Option<Text> {
    if store.len() >= 4 && store.skip(store.len() - 4) == "_emb"@ {
        Some(store.take(store.len() - 4))
    } else {
        None
    }
}

/// The column a store is listed under: the one it was made from, else its name.
pub open spec fn listed_column(store: Text) -> Text {
    match column_of(store) {
        Some(column) => column,
        None => store,
    }
}

/// Reading a store name back gives the text column it was made from.
pub proof fn store_names_read_back(text_column: Text)
    ensures
        column_of(store_name_of(text_column)) == Some(text_column),
{
    reveal_strlit("_emb");
    assert(store_name_of(text_column).skip(text_column.len() as int) == "_emb"@);
    assert(store_name_of(text_column).take(text_column.len() as int) == text_column);
}

/// A text column that was read from a store name makes that store name.
pub proof fn read_columns_make_the_store(store: Text)
    requires
        column_of(store) is Some,
    ensures
        store_name_of(column_of(store)->0) == store,
{
    reveal_strlit("_emb");
    assert(store.take(store.len() - 4) + store.skip(store.len() - 4) == store);
}

/// No two text columns of a type share a store.
pub proof fn store_names_are_distinct(left: Text, right: Text)
    requires
        store_name_of(left) == store_name_of(right),
    ensures
        left == right,
{
    store_names_read_back(left);
    store_names_read_back(right);
}

/// The store name for a source column: `"{text_column}_emb"`.
pub fn store_name(text_column: &str) -> (name: String)
    ensures
        name@ == store_name_of(text_column@),
{
    let mut name = text_column.to_owned();
    name.append("_emb");
    name
}

/// The store key for a source column: `(node_type, "{text_column}_emb")`.
pub fn store_key(node_type: &str, text_column: &str) -> (key: (String, String))
    ensures
        key.0@ == node_type@,
        key.1@ == store_name_of(text_column@),
{
    (node_type.to_owned(), store_name(text_column))
}

/// The source column a store name was minted from, or `None` when the name
/// carries no `_emb` suffix.
pub fn text_column_of(store: &str) -> (column: Option<&str>)
    ensures
        match column {
            Some(c) => column_of(store@) == Some(c@),
            None => column_of(store@) is None,
        },
{
    proof {
        reveal_strlit("_emb");
    }
    let chars = chars_of(store);
    let n: usize = chars.len();
    if n >= 4 && chars[n - 4] == '_' && chars[n - 3] == 'e' && chars[n - 2] == 'm' && chars[n - 1]
        == 'b' {
        assert(store@.skip(n - 4) =~= "_emb"@);
        Some(store.substring_char(0, n - 4))
    } else {
        proof {
            if n >= 4 && store@.skip(n - 4) == "_emb"@ {
                assert(store@.skip(n - 4)[0] == '_' && store@.skip(n - 4)[1] == 'e' && store@.skip(
                    n - 4,
                )[2] == 'm' && store@.skip(n - 4)[3] == 'b');
            }
        }
        None
    }
}

/// The column a store is listed under: the one its name was made from, else
/// the name itself.
pub fn column_or_name(store: &str) -> (column: String)
    ensures
        column@ == listed_column(store@),
{
    match text_column_of(store) {
        Some(column) => column.to_owned(),
        None => store.to_owned(),
    }
}

} // verus!
