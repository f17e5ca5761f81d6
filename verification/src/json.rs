//! JSON values, and their texts.
use vstd::prelude::*;

use crate::text::{opt_view, text_less, utf8_len};

verus! {

#[verifier::external_type_specification]
#[verifier::external_body]
pub struct ExNumber(serde_json::Number);

#[verifier::external_type_specification]
#[verifier::external_body]
pub struct ExValue(serde_json::Value);

/// A JSON value. The fields of an object stand in the order of their names.
pub enum JsonValue {
    Null,
    Bool(bool),
    Number(serde_json::Number),
    Text(String),
    Array(Vec<JsonValue>),
    Object(Vec<(String, JsonValue)>),
}

/// A number: a machine integer, or the text of one that is none.
pub enum NumberView {
    Unsigned(u64),
    Negative(i64),
    Fraction(Seq<char>),
}

pub enum JsonView {
    Null,
    Bool(bool),
    Number(NumberView),
    Text(Seq<char>),
    Array(Seq<JsonView>),
    Object(Seq<(Seq<char>, JsonView)>),
}

/// What a number of the JSON library holds.
pub uninterp spec fn number_view(number: serde_json::Number) -> NumberView;

/// What a value of the JSON library holds.
pub uninterp spec fn content(value: serde_json::Value) -> JsonView;

/// The compact text of a value, where it has one.
pub uninterp spec fn json_text(value: JsonView) -> Option<Seq<char>>;

/// The value that a text stands for, or what is wrong with the text.
pub uninterp spec fn json_parsed(text: Seq<char>) -> Result<JsonView, Seq<char>>;

/// A number with so many decimals, where it can be taken for a fraction.
pub uninterp spec fn fixed_decimals(number: NumberView, decimals: usize) -> Option<Seq<char>>;

pub open spec fn json_view(value: JsonValue) -> JsonView
    decreases value,
{
    match value {
        JsonValue::Null => JsonView::Null,
        JsonValue::Bool(b) => JsonView::Bool(b),
        JsonValue::Number(n) => JsonView::Number(number_view(n)),
        JsonValue::Text(text) => JsonView::Text(text@),
        JsonValue::Array(items) => JsonView::Array(
            Seq::new(
                items@.len(),
                |i: int|
                    if 0 <= i < items@.len() {
                        json_view(items@[i])
                    } else {
                        JsonView::Null
                    },
            ),
        ),
        JsonValue::Object(fields) => JsonView::Object(
            Seq::new(
                fields@.len(),
                |i: int|
                    if 0 <= i < fields@.len() {
                        (fields@[i].0@, json_view(fields@[i].1))
                    } else {
                        (Seq::empty(), JsonView::Null)
                    },
            ),
        ),
    }
}

impl View for JsonValue {
    type V = JsonView;

    open spec fn view(&self) -> JsonView {
        json_view(*self)
    }
}

/// One layer of a value of the JSON library.
pub enum Node {
    Null,
    Bool(bool),
    Number(serde_json::Number),
    Text(String),
    Array(Vec<serde_json::Value>),
    Object(Vec<(String, serde_json::Value)>),
}

pub open spec fn node_content(node: Node) -> JsonView {
    match node {
        Node::Null => JsonView::Null,
        Node::Bool(b) => JsonView::Bool(b),
        Node::Number(n) => JsonView::Number(number_view(n)),
        Node::Text(text) => JsonView::Text(text@),
        Node::Array(items) => JsonView::Array(
            Seq::new(items@.len(), |i: int| content(items@[i])),
        ),
        Node::Object(fields) => JsonView::Object(
            Seq::new(fields@.len(), |i: int| (fields@[i].0@, content(fields@[i].1))),
        ),
    }
}

pub open spec fn fields_ascend(fields: Seq<(Seq<char>, JsonView)>) -> bool {
    forall|i: int, j: int|
        0 <= i < j < fields.len() ==> text_less((#[trigger] fields[i]).0, (#[trigger] fields[j]).0)
}

/// The fields of this layer stand in the order of their names.
pub open spec fn layer_ordered(value: JsonView) -> bool {
    match value {
        JsonView::Object(fields) => fields_ascend(fields),
        _ => true,
    }
}

/// The fields of every object in a value stand in the order of their names.
pub open spec fn well_ordered(value: JsonView) -> bool
    decreases value,
{
    match value {
        JsonView::Array(items) => forall|i: int|
            0 <= i < items.len() ==> well_ordered(#[trigger] items[i]),
        JsonView::Object(fields) => fields_ascend(fields) && forall|i: int|
            0 <= i < fields.len() ==> well_ordered((#[trigger] fields[i]).1),
        _ => true,
    }
}

/// The variants of `serde_json::Value`, one for one. Its map is a `BTreeMap`,
/// which yields the fields in the order of their names.
#[verifier::external_body]
fn open_value(value: serde_json::Value) -> (node: Node)
    ensures
        node_content(node) == content(value),
        layer_ordered(node_content(node)),
{
    match value {
        serde_json::Value::Null => Node::Null,
        serde_json::Value::Bool(b) => Node::Bool(b),
        serde_json::Value::Number(n) => Node::Number(n),
        serde_json::Value::String(text) => Node::Text(text),
        serde_json::Value::Array(items) => Node::Array(items),
        serde_json::Value::Object(fields) => Node::Object(fields.into_iter().collect()),
    }
}

/// The variants of `serde_json::Value`, one for one. Fields in the order of
/// their names are what its map, a `BTreeMap`, holds.
#[verifier::external_body]
fn close_node(node: Node) -> (value: serde_json::Value)
    requires
        layer_ordered(node_content(node)),
    ensures
        content(value) == node_content(node),
{
    match node {
        Node::Null => serde_json::Value::Null,
        Node::Bool(b) => serde_json::Value::Bool(b),
        Node::Number(n) => serde_json::Value::Number(n),
        Node::Text(text) => serde_json::Value::String(text),
        Node::Array(items) => serde_json::Value::Array(items),
        Node::Object(fields) => serde_json::Value::Object(fields.into_iter().collect()),
    }
}

/// The name by which the parser of the JSON library knows text that it is to take
/// as it stands.
pub open spec fn raw_text_name() -> Seq<char> {
    "$serde_json::private::RawValue"@
}

/// Whether parsing gives back what serializing wrote: no fractions, fields in
/// order, no first field with a name that the parser keeps for itself, and no more
/// layers than it descends.
pub open spec fn reads_back(value: JsonView, layers: int) -> bool
    decreases value,
{
    match value {
        JsonView::Null => true,
        JsonView::Bool(_) => true,
        JsonView::Text(_) => true,
        JsonView::Number(NumberView::Fraction(_)) => false,
        JsonView::Number(_) => true,
        JsonView::Array(items) => layers > 0 && forall|i: int|
            0 <= i < items.len() ==> reads_back(#[trigger] items[i], layers - 1),
        JsonView::Object(fields) => layers > 0 && fields_ascend(fields) && (fields.len() > 0
            ==> fields[0].0 != raw_text_name()) && forall|i: int|
            0 <= i < fields.len() ==> reads_back((#[trigger] fields[i]).1, layers - 1),
    }
}

/// The bytes that a value takes at most which holds no other values, where that is
/// known: every byte of a text may be written as six.
pub open spec fn scalar_bound(value: JsonView) -> Option<nat> {
    match value {
        JsonView::Null => Some(4),
        JsonView::Bool(_) => Some(5),
        JsonView::Number(NumberView::Unsigned(_)) => Some(20),
        JsonView::Number(NumberView::Negative(_)) => Some(20),
        JsonView::Text(text) => Some(2 + 6 * utf8_len(text)),
        _ => None,
    }
}

/// The bytes that an object of such values takes at most: its brackets and, for each
/// field, the name, the value, two quotes, a colon and a comma.
pub open spec fn flat_bound(fields: Seq<(Seq<char>, JsonView)>) -> Option<nat>
    decreases fields.len(),
{
    if fields.len() == 0 {
        Some(2)
    } else {
        match (flat_bound(fields.drop_last()), scalar_bound(fields.last().1)) {
            (Some(before), Some(size)) => Some(before + 6 * utf8_len(fields.last().0) + size + 4),
            _ => None,
        }
    }
}

/// The text of a value is there, and that of a flat object is no longer than it can
/// get.
pub open spec fn bounded_text(text: Option<Seq<char>>, value: JsonView) -> bool {
    text is Some && match value {
        JsonView::Object(fields) => match flat_bound(fields) {
            Some(size) => utf8_len(text->0) <= size,
            None => true,
        },
        _ => true,
    }
}

/// How many layers the parser of the JSON library descends.
pub open spec fn parsed_layers() -> int {
    127
}

/// The text stands for the value.
pub open spec fn parses_to(text: Seq<char>, value: JsonView) -> bool {
    json_parsed(text) == Ok::<JsonView, Seq<char>>(value)
}

/// `serde_json::to_string`: the text depends on nothing but what the value
/// holds, and `serde_json::from_str` reads it back. Not claimed of fractions,
/// which are read back by their nearest floating-point number, nor of an object
/// whose first field has the name that marks raw text. The text is always there:
/// names are strings, and writing to memory does not fail. A character is written
/// as it stands or as an escape of at most six bytes, a number in at most twenty,
/// and nothing stands between them but quotes, colons, commas and brackets.
#[verifier::external_body]
fn serialize(value: &serde_json::Value) -> (text: Option<String>)
    ensures
        opt_view(text) == json_text(content(*value)),
        bounded_text(opt_view(text), content(*value)),
        text is Some && reads_back(content(*value), parsed_layers()) ==> parses_to(
            text->0@,
            content(*value),
        ),
{
    serde_json::to_string(value).ok()
}

/// `serde_json::from_str`: the value, or the message of the error, depends on
/// nothing but the text.
#[verifier::external_body]
fn parse(text: &str) -> (result: Result<serde_json::Value, String>)
    ensures
        match result {
            Ok(value) => parses_to(text@, content(value)),
            Err(message) => json_parsed(text@) == Err::<JsonView, Seq<char>>(message@),
        },
{
    serde_json::from_str::<serde_json::Value>(text).map_err(|error| error.to_string())
}

pub open spec fn as_unsigned(number: NumberView) -> Option<u64> {
    match number {
        NumberView::Unsigned(n) => Some(n),
        _ => None,
    }
}

pub open spec fn as_signed(number: NumberView) -> Option<i64> {
    match number {
        NumberView::Unsigned(n) => if n <= i64::MAX {
            Some(n as i64)
        } else {
            None
        },
        NumberView::Negative(n) => Some(n),
        NumberView::Fraction(_) => None,
    }
}

/// `serde_json::Number::as_u64` gives the numbers that a `u64` holds.
pub assume_specification[ serde_json::Number::as_u64 ](number: &serde_json::Number) -> (n: Option<
    u64,
>)
    ensures
        n == as_unsigned(number_view(*number)),
;

/// `serde_json::Number::as_i64` gives the numbers that an `i64` holds.
pub assume_specification[ serde_json::Number::as_i64 ](number: &serde_json::Number) -> (n: Option<
    i64,
>)
    ensures
        n == as_signed(number_view(*number)),
;

/// `serde_json::Number::clone` copies the number.
pub assume_specification[ <serde_json::Number as Clone>::clone ](
    number: &serde_json::Number,
) -> (copied: serde_json::Number)
    ensures
        copied == *number,
;

/// `serde_json::Number::from` makes a number of a machine integer.
#[verifier::external_body]
fn number_of(n: u64) -> (number: serde_json::Number)
    ensures
        number_view(number) == NumberView::Unsigned(n),
{
    serde_json::Number::from(n)
}

/// `serde_json::Number::as_f64`, written with so many decimals: as many as a `u16`
/// counts at most.
#[verifier::external_body]
pub(crate) fn fraction_text(number: &serde_json::Number, decimals: usize) -> (text: Option<String>)
    requires
        decimals <= u16::MAX,
    ensures
        opt_view(text) == fixed_decimals(number_view(*number), decimals),
{
    number.as_f64().map(|fraction| format!("{fraction:.decimals$}"))
}

fn to_serde(value: &JsonValue) -> (converted: serde_json::Value)
    requires
        well_ordered(value@),
    ensures
        content(converted) == value@,
    decreases value,
{
    let node = match value {
        JsonValue::Null => Node::Null,
        JsonValue::Bool(b) => Node::Bool(*b),
        JsonValue::Number(n) => Node::Number(n.clone()),
        JsonValue::Text(text) => Node::Text(text.clone()),
        JsonValue::Array(items) => {
            let mut converted: Vec<serde_json::Value> = Vec::new();
            let mut i: usize = 0;
            while i < items.len()
                invariant
                    i <= items@.len(),
                    *value == JsonValue::Array(*items),
                    well_ordered(value@),
                    converted@.len() == i,
                    forall|j: int|
                        0 <= j < i ==> content(#[trigger] converted@[j]) == json_view(items@[j]),
                decreases items.len() - i,
            {
                proof {
                    assert(value@->Array_0[i as int] == items@[i as int]@);
                    assert(decreases_to!(value => items@[i as int]));
                }
                converted.push(to_serde(&items[i]));
                i += 1;
            }
            let node = Node::Array(converted);
            proof {
                assert(node_content(node)->Array_0 =~= value@->Array_0);
            }
            node
        },
        JsonValue::Object(fields) => {
            let mut converted: Vec<(String, serde_json::Value)> = Vec::new();
            let mut i: usize = 0;
            while i < fields.len()
                invariant
                    i <= fields@.len(),
                    *value == JsonValue::Object(*fields),
                    well_ordered(value@),
                    converted@.len() == i,
                    forall|j: int|
                        0 <= j < i ==> (#[trigger] converted@[j]).0@ == fields@[j].0@ && content(
                            converted@[j].1,
                        ) == json_view(fields@[j].1),
                decreases fields.len() - i,
            {
                proof {
                    assert(value@->Object_0[i as int].1 == fields@[i as int].1@);
                    assert(decreases_to!(value => fields@[i as int]));
                }
                converted.push((fields[i].0.clone(), to_serde(&fields[i].1)));
                i += 1;
            }
            let node = Node::Object(converted);
            proof {
                assert(node_content(node)->Object_0 =~= value@->Object_0);
            }
            node
        },
    };
    close_node(node)
}

/// The value that a value of the JSON library stands for.
pub fn from_serde(value: serde_json::Value) -> (converted: JsonValue)
    ensures
        converted@ == content(value),
        well_ordered(converted@),
    decreases content(value),
{
    match open_value(value) {
        Node::Null => JsonValue::Null,
        Node::Bool(b) => JsonValue::Bool(b),
        Node::Number(n) => JsonValue::Number(n),
        Node::Text(text) => JsonValue::Text(text),
        Node::Array(items) => {
            let ghost views = content(value)->Array_0;
            let mut converted: Vec<JsonValue> = Vec::new();
            let mut rest = items;
            while rest.len() > 0
                invariant
                    rest@.len() <= views.len(),
                    content(value) == JsonView::Array(views),
                    forall|j: int| 0 <= j < rest@.len() ==> content(#[trigger] rest@[j]) == views[j],
                    converted@.len() + rest@.len() == views.len(),
                    forall|j: int|
                        0 <= j < converted@.len() ==> (#[trigger] converted@[j])@ == views[views.len()
                            - 1 - j] && well_ordered(converted@[j]@),
                decreases rest.len(),
            {
                proof {
                    let k = rest@.len() - 1;
                    assert(content(rest@[k]) == views[k]);
                    assert(decreases_to!(views => views[k]));
                    assert(content(value)->Array_0 == views);
                    assert(decreases_to!(content(value) => views[k]));
                }
                match rest.pop() {
                    Some(item) => {
                        converted.push(from_serde(item));
                    },
                    None => {},
                }
            }
            let ordered = reversed(converted);
            let result = JsonValue::Array(ordered);
            proof {
                assert(result@->Array_0 =~= views);
            }
            result
        },
        Node::Object(fields) => {
            let ghost views = content(value)->Object_0;
            let mut converted: Vec<(String, JsonValue)> = Vec::new();
            let mut rest = fields;
            while rest.len() > 0
                invariant
                    rest@.len() <= views.len(),
                    content(value) == JsonView::Object(views),
                    forall|j: int|
                        0 <= j < rest@.len() ==> (#[trigger] rest@[j]).0@ == views[j].0 && content(
                            rest@[j].1,
                        ) == views[j].1,
                    converted@.len() + rest@.len() == views.len(),
                    forall|j: int|
                        0 <= j < converted@.len() ==> (#[trigger] converted@[j]).0@
                            == views[views.len() - 1 - j].0 && converted@[j].1@ == views[views.len()
                            - 1 - j].1 && well_ordered(converted@[j].1@),
                decreases rest.len(),
            {
                proof {
                    let k = rest@.len() - 1;
                    assert(content(rest@[k].1) == views[k].1);
                    assert(decreases_to!(views => views[k]));
                    assert(content(value)->Object_0 == views);
                    assert(decreases_to!(content(value) => views[k].1));
                }
                match rest.pop() {
                    Some((name, item)) => {
                        converted.push((name, from_serde(item)));
                    },
                    None => {},
                }
            }
            let ordered = reversed(converted);
            let result = JsonValue::Object(ordered);
            proof {
                assert(result@->Object_0 =~= views);
            }
            result
        },
    }
}

fn reversed<T>(items: Vec<T>) -> (r: Vec<T>)
    ensures
        r@ == items@.reverse(),
{
    let mut rest = items;
    let mut r: Vec<T> = Vec::new();
    while rest.len() > 0
        invariant
            r@.len() + rest@.len() == items@.len(),
            rest@ == items@.take(rest@.len() as int),
            forall|j: int| 0 <= j < r@.len() ==> r@[j] == items@[items@.len() - 1 - j],
        decreases rest.len(),
    {
        match rest.pop() {
            Some(item) => {
                r.push(item);
            },
            None => {},
        }
    }
    proof {
        assert(r@ =~= items@.reverse());
    }
    r
}

/// The compact text of a value.
pub fn to_text(value: &JsonValue) -> (text: Option<String>)
    requires
        well_ordered(value@),
    ensures
        opt_view(text) == json_text(value@),
        bounded_text(opt_view(text), value@),
        text is Some && reads_back(value@, parsed_layers()) ==> parses_to(
            text->0@,
            value@,
        ),
{
    serialize(&to_serde(value))
}

/// The value that a text stands for, or what is wrong with the text.
pub fn from_text(text: &str) -> (result: Result<JsonValue, String>)
    ensures
        match result {
            Ok(value) => parses_to(text@, value@) && well_ordered(
                value@,
            ),
            Err(message) => json_parsed(text@) == Err::<JsonView, Seq<char>>(message@),
        },
{
    match parse(text) {
        Ok(value) => Ok(from_serde(value)),
        Err(message) => Err(message),
    }
}

/// The field of an object with this name.
pub open spec fn field(value: JsonView, name: Seq<char>) -> Option<JsonView> {
    match value {
        JsonView::Object(fields) => field_from(fields, name, 0),
        _ => None,
    }
}

pub open spec fn field_from(
    fields: Seq<(Seq<char>, JsonView)>,
    name: Seq<char>,
    from: int,
) -> Option<JsonView>
    decreases fields.len() - from,
{
    if from < 0 || from >= fields.len() {
        None
    } else if fields[from].0 == name {
        Some(fields[from].1)
    } else {
        field_from(fields, name, from + 1)
    }
}

pub open spec fn text_of(value: JsonView) -> Option<Seq<char>> {
    match value {
        JsonView::Text(text) => Some(text),
        _ => None,
    }
}

pub open spec fn unsigned_of(value: JsonView) -> Option<u64> {
    match value {
        JsonView::Number(n) => as_unsigned(n),
        _ => None,
    }
}

pub open spec fn signed_of(value: JsonView) -> Option<i64> {
    match value {
        JsonView::Number(n) => as_signed(n),
        _ => None,
    }
}

pub open spec fn bool_of(value: JsonView) -> Option<bool> {
    match value {
        JsonView::Bool(b) => Some(b),
        _ => None,
    }
}

pub open spec fn items_of(value: JsonView) -> Option<Seq<JsonView>> {
    match value {
        JsonView::Array(items) => Some(items),
        _ => None,
    }
}

impl JsonValue {
    pub fn get(&self, name: &str) -> (found: Option<&JsonValue>)
        ensures
            match found {
                Some(value) => field(self@, name@) == Some(value@),
                None => field(self@, name@) is None,
            },
    {
        match self {
            JsonValue::Object(fields) => {
                let mut i: usize = 0;
                while i < fields.len()
                    invariant
                        i <= fields@.len(),
                        *self == JsonValue::Object(*fields),
                        field(self@, name@) == field_from(self@->Object_0, name@, i as int),
                    decreases fields.len() - i,
                {
                    if fields[i].0.as_str().eq(name) {
                        return Some(&fields[i].1);
                    }
                    i += 1;
                }
                None
            },
            _ => None,
        }
    }

    pub fn as_str(&self) -> (text: Option<&str>)
        ensures
            crate::text::opt_str_view(text) == text_of(self@),
    {
        match self {
            JsonValue::Text(text) => Some(text.as_str()),
            _ => None,
        }
    }

    pub fn as_u64(&self) -> (n: Option<u64>)
        ensures
            n == unsigned_of(self@),
    {
        match self {
            JsonValue::Number(n) => n.as_u64(),
            _ => None,
        }
    }

    pub fn as_i64(&self) -> (n: Option<i64>)
        ensures
            n == signed_of(self@),
    {
        match self {
            JsonValue::Number(n) => n.as_i64(),
            _ => None,
        }
    }

    pub fn as_bool(&self) -> (b: Option<bool>)
        ensures
            b == bool_of(self@),
    {
        match self {
            JsonValue::Bool(b) => Some(*b),
            _ => None,
        }
    }

    pub fn as_array(&self) -> (items: Option<&Vec<JsonValue>>)
        ensures
            match items {
                Some(items) => items_of(self@) == Some(views(items@)),
                None => items_of(self@) is None,
            },
    {
        match self {
            JsonValue::Array(items) => {
                proof {
                    assert(self@->Array_0 =~= views(items@));
                }
                Some(items)
            },
            _ => None,
        }
    }

    pub fn is_null(&self) -> (r: bool)
        ensures
            r == (self@ is Null),
    {
        match self {
            JsonValue::Null => true,
            _ => false,
        }
    }

    pub fn text(text: &str) -> (value: JsonValue)
        ensures
            value@ == JsonView::Text(text@),
    {
        JsonValue::Text(text.to_owned())
    }

    pub fn number(n: u64) -> (value: JsonValue)
        ensures
            value@ == JsonView::Number(NumberView::Unsigned(n)),
    {
        JsonValue::Number(number_of(n))
    }

    pub fn null() -> (value: JsonValue)
        ensures
            value@ == JsonView::Null,
    {
        JsonValue::Null
    }

    pub fn truth(b: bool) -> (value: JsonValue)
        ensures
            value@ == JsonView::Bool(b),
    {
        JsonValue::Bool(b)
    }

    pub fn array(items: Vec<JsonValue>) -> (value: JsonValue)
        ensures
            value@ == JsonView::Array(views(items@)),
    {
        let value = JsonValue::Array(items);
        proof {
            assert(value@->Array_0 =~= views(items@));
        }
        value
    }

    pub fn object(fields: Vec<(String, JsonValue)>) -> (value: JsonValue)
        ensures
            value@ == JsonView::Object(fields_view(fields@)),
    {
        let value = JsonValue::Object(fields);
        proof {
            assert(value@->Object_0 =~= fields_view(fields@));
        }
        value
    }

    /// A copy of the value.
    pub fn copy(&self) -> (copied: JsonValue)
        ensures
            copied@ == self@,
        decreases *self,
    {
        match self {
            JsonValue::Null => JsonValue::Null,
            JsonValue::Bool(b) => JsonValue::Bool(*b),
            JsonValue::Number(n) => JsonValue::Number(n.clone()),
            JsonValue::Text(text) => JsonValue::Text(text.clone()),
            JsonValue::Array(items) => {
                let mut copied: Vec<JsonValue> = Vec::new();
                let mut i: usize = 0;
                while i < items.len()
                    invariant
                        i <= items@.len(),
                        *self == JsonValue::Array(*items),
                        copied@.len() == i,
                        forall|j: int| 0 <= j < i ==> (#[trigger] copied@[j])@ == items@[j]@,
                    decreases items.len() - i,
                {
                    proof {
                        assert(self->Array_0 == *items);
                        assert(decreases_to!(*self => items@[i as int]));
                    }
                    copied.push(items[i].copy());
                    i += 1;
                }
                let result = JsonValue::Array(copied);
                proof {
                    assert(result@->Array_0 =~= self@->Array_0);
                }
                result
            },
            JsonValue::Object(fields) => {
                let mut copied: Vec<(String, JsonValue)> = Vec::new();
                let mut i: usize = 0;
                while i < fields.len()
                    invariant
                        i <= fields@.len(),
                        *self == JsonValue::Object(*fields),
                        copied@.len() == i,
                        forall|j: int|
                            0 <= j < i ==> (#[trigger] copied@[j]).0@ == fields@[j].0@
                                && copied@[j].1@ == fields@[j].1@,
                    decreases fields.len() - i,
                {
                    proof {
                        assert(self->Object_0 == *fields);
                        assert(decreases_to!(*self => fields@[i as int]));
                    }
                    copied.push((fields[i].0.clone(), fields[i].1.copy()));
                    i += 1;
                }
                let result = JsonValue::Object(copied);
                proof {
                    assert(result@->Object_0 =~= self@->Object_0);
                }
                result
            },
        }
    }
}

pub open spec fn views(items: Seq<JsonValue>) -> Seq<JsonView> {
    items.map_values(|item: JsonValue| item@)
}

pub open spec fn fields_view(fields: Seq<(String, JsonValue)>) -> Seq<(Seq<char>, JsonView)> {
    fields.map_values(|entry: (String, JsonValue)| (entry.0@, entry.1@))
}

pub(crate) fn push_field(fields: &mut Vec<(String, JsonValue)>, name: &str, value: JsonValue)
    ensures
        fields_view(final(fields)@) == fields_view(old(fields)@).push((name@, value@)),
{
    let ghost before = fields_view(fields@);
    let ghost shown = value@;
    fields.push((name.to_owned(), value));
    proof {
        assert(fields_view(fields@) =~= before.push((name@, shown)));
    }
}

/// An object is ordered where each name comes before the next, and every value
/// is ordered.
pub proof fn lemma_object_ordered(fields: Seq<(Seq<char>, JsonView)>)
    requires
        forall|k: int|
            0 <= k < fields.len() - 1 ==> text_less(fields[k].0, #[trigger] fields[k + 1].0),
        forall|k: int| 0 <= k < fields.len() ==> well_ordered((#[trigger] fields[k]).1),
    ensures
        well_ordered(JsonView::Object(fields)),
{
    assert forall|i: int, j: int| 0 <= i < j < fields.len() implies text_less(
        (#[trigger] fields[i]).0,
        (#[trigger] fields[j]).0,
    ) by {
        lemma_ascending_chain(fields, i, j);
    }
}

proof fn lemma_ascending_chain(fields: Seq<(Seq<char>, JsonView)>, i: int, j: int)
    requires
        0 <= i < j < fields.len(),
        forall|k: int|
            0 <= k < fields.len() - 1 ==> text_less(fields[k].0, #[trigger] fields[k + 1].0),
    ensures
        text_less(fields[i].0, fields[j].0),
    decreases j - i,
{
    assert(text_less(fields[j - 1].0, fields[j - 1 + 1].0));
    if i < j - 1 {
        lemma_ascending_chain(fields, i, j - 1);
        crate::text::lemma_less_transitive(fields[i].0, fields[j - 1].0, fields[j].0);
    }
}

}
