//! Property values and the indices of nodes and relationships.
use vstd::prelude::*;
use crate::text::{
    lex_le, lex_le_total, lex_le_transitive, push_decimal, push_signed, decimal, signed_decimal,
    text_le, Text,
};

verus! {

/// A node's slot.
#[derive(Clone, Copy, Debug, PartialEq, Eq, PartialOrd, Ord, Hash, Structural)]
pub struct NodeIndex {
    /// The slot.
    pub slot: usize,
}

/// A relationship's slot.
#[derive(Clone, Copy, Debug, PartialEq, Eq, PartialOrd, Ord, Hash, Structural)]
pub struct EdgeIndex {
    /// The slot.
    pub slot: usize,
}

impl NodeIndex {
    /// The node at `slot`.
    pub fn new(slot: usize) -> (index: NodeIndex)
        ensures
            index == (NodeIndex { slot }),
    {
        NodeIndex { slot }
    }

    /// The slot.
    pub fn index(&self) -> (slot: usize)
        ensures
            slot == self.slot,
    {
        self.slot
    }
}

impl EdgeIndex {
    /// The relationship at `slot`.
    pub fn new(slot: usize) -> (index: EdgeIndex)
        ensures
            index == (EdgeIndex { slot }),
    {
        EdgeIndex { slot }
    }

    /// The slot.
    pub fn index(&self) -> (slot: usize)
        ensures
            slot == self.slot,
    {
        self.slot
    }
}

/// A property value.
#[derive(Debug, PartialEq, Eq)]
pub enum Value {
    /// No value.
    Null,
    /// A truth value.
    Boolean(bool),
    /// An integer.
    Int64(i64),
    /// A double-precision number: its bits, and how it is written.
    Float64 { bits: u64, shown: String },
    /// A compact integer id.
    UniqueId(u32),
    /// A text.
    String(String),
    /// Values in order.
    List(Vec<Value>),
}

/// What a value holds.
pub enum ValueModel {
    Null,
    Boolean(bool),
    Int64(i64),
    Float64 { bits: u64, shown: Text },
    UniqueId(u32),
    String(Text),
    List(Seq<ValueModel>),
}

impl Value {
    /// What the value holds.
    pub open spec fn model(self) -> ValueModel
        decreases self,
    {
        match self {
            Value::Null => ValueModel::Null,
            Value::Boolean(b) => ValueModel::Boolean(b),
            Value::Int64(n) => ValueModel::Int64(n),
            Value::Float64 { bits, shown } => ValueModel::Float64 { bits, shown: shown@ },
            Value::UniqueId(n) => ValueModel::UniqueId(n),
            Value::String(s) => ValueModel::String(s@),
            Value::List(items) => ValueModel::List(
                Seq::new(
                    items@.len(),
                    |i: int|
                        if 0 <= i < items@.len() {
                            items@[i].model()
                        } else {
                            ValueModel::Null
                        },
                ),
            ),
        }
    }
}

impl View for Value {
    type V = ValueModel;

    open spec fn view(&self) -> ValueModel {
        self.model()
    }
}

/// What a list of values holds.
pub open spec fn models(values: Seq<Value>) -> Seq<ValueModel> {
    Seq::new(values.len(), |i: int| values[i]@)
}

/// What an optional value holds.
pub open spec fn model_option(value: Option<Value>) -> Option<ValueModel> {
    match value {
        Some(v) => Some(v@),
        None => None,
    }
}

/// How a value is written: texts in quotes, lists in brackets.
pub open spec fn shown_value(value: ValueModel) -> Text
    decreases value, 0int,
{
    match value {
        ValueModel::Null => "null"@,
        ValueModel::Boolean(b) => if b { "true"@ } else { "false"@ },
        ValueModel::Int64(n) => signed_decimal(n as int),
        ValueModel::Float64 { bits, shown } => shown,
        ValueModel::UniqueId(n) => decimal(n as nat),
        ValueModel::String(s) => "\""@ + s + "\""@,
        ValueModel::List(items) => "["@ + shown_items(items, items.len() as int) + "]"@,
    }
}

/// The first `count` items of a list, written with commas between them.
pub open spec fn shown_items(items: Seq<ValueModel>, count: int) -> Text
    decreases items, 1int, count,
{
    if count <= 0 || count > items.len() {
        Seq::empty()
    } else if count == 1 {
        shown_value(items[0])
    } else {
        shown_items(items, count - 1) + ", "@ + shown_value(items[count - 1])
    }
}

/// The place of a double in the total order of doubles.
pub open spec fn double_rank(bits: u64) -> int {
    if bits < 0x8000_0000_0000_0000 {
        bits as int
    } else {
        0x7FFF_FFFF_FFFF_FFFF - bits
    }
}

/// The place of a value's kind.
pub open spec fn kind_rank(value: ValueModel) -> int {
    match value {
        ValueModel::Null => 0,
        ValueModel::Boolean(_) => 1,
        ValueModel::Int64(_) => 2,
        ValueModel::Float64 { .. } => 3,
        ValueModel::UniqueId(_) => 4,
        ValueModel::String(_) => 5,
        ValueModel::List(_) => 6,
    }
}

/// The order of values: by kind, then within it. Lists rank alike.
pub open spec fn value_before(a: ValueModel, b: ValueModel) -> bool {
    match (a, b) {
        (ValueModel::Boolean(x), ValueModel::Boolean(y)) => !x || y,
        (ValueModel::Int64(x), ValueModel::Int64(y)) => x <= y,
        (ValueModel::Float64 { bits: x, .. }, ValueModel::Float64 { bits: y, .. }) => double_rank(x)
            <= double_rank(y),
        (ValueModel::UniqueId(x), ValueModel::UniqueId(y)) => x <= y,
        (ValueModel::String(x), ValueModel::String(y)) => lex_le(x, y),
        _ => kind_rank(a) <= kind_rank(b),
    }
}

/// The order of values is total.
pub proof fn value_before_total(a: ValueModel, b: ValueModel)
    ensures
        value_before(a, b) || value_before(b, a),
{
    if a is String && b is String {
        lex_le_total(a->String_0, b->String_0);
    }
}

/// The order of values is transitive.
pub proof fn value_before_transitive(a: ValueModel, b: ValueModel, c: ValueModel)
    requires
        value_before(a, b),
        value_before(b, c),
    ensures
        value_before(a, c),
{
    if a is String && b is String && c is String {
        lex_le_transitive(a->String_0, b->String_0, c->String_0);
    }
}

pub(crate) fn double_le(x: u64, y: u64) -> (le: bool)
    ensures
        le == (double_rank(x) <= double_rank(y)),
{
    if x < 0x8000_0000_0000_0000 {
        y < 0x8000_0000_0000_0000 && x <= y
    } else {
        y < 0x8000_0000_0000_0000 || x >= y
    }
}

impl Value {
    fn kind(&self) -> (rank: u8)
        ensures
            rank == kind_rank(self@),
    {
        match self {
            Value::Null => 0,
            Value::Boolean(_) => 1,
            Value::Int64(_) => 2,
            Value::Float64 { .. } => 3,
            Value::UniqueId(_) => 4,
            Value::String(_) => 5,
            Value::List(_) => 6,
        }
    }

    /// Whether the value may stand before `other` in the order of values.
    pub fn precedes(&self, other: &Value) -> (result: bool)
        ensures
            result == value_before(self@, other@),
    {
        match (self, other) {
            (Value::Boolean(x), Value::Boolean(y)) => !*x || *y,
            (Value::Int64(x), Value::Int64(y)) => *x <= *y,
            (Value::Float64 { bits: x, .. }, Value::Float64 { bits: y, .. }) => double_le(*x, *y),
            (Value::UniqueId(x), Value::UniqueId(y)) => *x <= *y,
            (Value::String(x), Value::String(y)) => text_le(x.as_str(), y.as_str()),
            _ => self.kind() <= other.kind(),
        }
    }

    /// Whether the two values hold the same.
    pub fn same(&self, other: &Value) -> (result: bool)
        ensures
            result == (self@ == other@),
        decreases self,
    {
        match (self, other) {
            (Value::Null, Value::Null) => true,
            (Value::Boolean(x), Value::Boolean(y)) => *x == *y,
            (Value::Int64(x), Value::Int64(y)) => *x == *y,
            (
                Value::Float64 { bits: x, shown: p },
                Value::Float64 { bits: y, shown: q },
            ) => *x == *y && *p == *q,
            (Value::UniqueId(x), Value::UniqueId(y)) => *x == *y,
            (Value::String(x), Value::String(y)) => *x == *y,
            (Value::List(x), Value::List(y)) => {
                if x.len() != y.len() {
                    assert(self@->List_0.len() != other@->List_0.len());
                    return false;
                }
                let mut i: usize = 0;
                while i < x.len()
                    invariant
                        i <= x.len(),
                        x.len() == y.len(),
                        *self == Value::List(*x),
                        *other == Value::List(*y),
                        forall|k: int| 0 <= k < i ==> (#[trigger] x@[k])@ == y@[k]@,
                    decreases x.len() - i,
                {
                    if !x[i].same(&y[i]) {
                        assert(self@->List_0[i as int] != other@->List_0[i as int]);
                        return false;
                    }
                    i = i + 1;
                }
                assert(self@->List_0 =~= other@->List_0);
                true
            },
            _ => false,
        }
    }

    /// A copy of the value.
    pub fn copy(&self) -> (value: Value)
        ensures
            value@ == self@,
        decreases self,
    {
        match self {
            Value::Null => Value::Null,
            Value::Boolean(b) => Value::Boolean(*b),
            Value::Int64(n) => Value::Int64(*n),
            Value::Float64 { bits, shown } => Value::Float64 { bits: *bits, shown: shown.clone() },
            Value::UniqueId(n) => Value::UniqueId(*n),
            Value::String(s) => Value::String(s.clone()),
            Value::List(items) => {
                let mut out: Vec<Value> = Vec::new();
                let mut i: usize = 0;
                while i < items.len()
                    invariant
                        i <= items.len(),
                        out.len() == i,
                        *self == Value::List(*items),
                        forall|k: int| 0 <= k < i ==> (#[trigger] out@[k])@ == items@[k]@,
                    decreases items.len() - i,
                {
                    assert(decreases_to!(*self => self->List_0));
                    let item = items[i].copy();
                    out.push(item);
                    i = i + 1;
                }
                let value = Value::List(out);
                assert(value@->List_0 =~= self@->List_0);
                value
            },
        }
    }

    /// Whether the value is [`Value::Null`].
    pub fn is_null(&self) -> (null: bool)
        ensures
            null == (self@ is Null),
    {
        match self {
            Value::Null => true,
            _ => false,
        }
    }
}

impl Clone for Value {
    fn clone(&self) -> (value: Value)
        ensures
            value@ == self@,
    {
        self.copy()
    }
}

/// Appends a value as it is written.
pub fn push_value(text: &mut String, value: &Value)
    ensures
        final(text)@ == old(text)@ + shown_value(value@),
    decreases value,
{
    match value {
        Value::Null => text.append("null"),
        Value::Boolean(b) => {
            if *b {
                text.append("true")
            } else {
                text.append("false")
            }
        },
        Value::Int64(n) => push_signed(text, *n),
        Value::Float64 { shown, .. } => text.append(shown.as_str()),
        Value::UniqueId(n) => push_decimal(text, *n as u64),
        Value::String(s) => {
            text.append("\"");
            text.append(s.as_str());
            text.append("\"");
            assert(text@ =~= old(text)@ + shown_value(value@));
        },
        Value::List(items) => {
            text.append("[");
            let ghost open = text@;
            let ghost model = value@->List_0;
            let mut i: usize = 0;
            assert(text@ =~= open + shown_items(model, 0));
            while i < items.len()
                invariant
                    i <= items.len(),
                    *value == Value::List(*items),
                    model == value@->List_0,
                    text@ == open + shown_items(model, i as int),
                decreases items.len() - i,
            {
                let ghost before = text@;
                if i > 0 {
                    text.append(", ");
                }
                push_value(text, &items[i]);
                proof {
                    assert(model[i as int] == items@[i as int]@);
                    if i == 0 {
                        assert(text@ =~= open + shown_items(model, 1));
                    } else {
                        assert(text@ =~= open + shown_items(model, i + 1));
                    }
                }
                i = i + 1;
            }
            text.append("]");
            assert(text@ =~= old(text)@ + shown_value(value@));
        },
    }
}

} // verus!
