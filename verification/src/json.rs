use vstd::prelude::*;

verus! {

/// A parsed JSON value: a finite, acyclic tree in which every node is one of
/// the six variants below.
///
/// JSON numbers are kept as their source lexeme (already validated against the
/// numeric grammar by the lexer); converting the lexeme to a machine float is
/// left to the caller, so the value tree itself stays exact.
#[derive(Debug, PartialEq)]
pub enum JsonValue {
    Null,
    Boolean(bool),
    Number(String),
    String(String),
    Array(Vec<JsonValue>),
    Object(JsonObject),
}

/// The members of a JSON object, as key/value pairs with unique keys.
/// A later insert for an existing key overwrites the earlier value.
#[derive(Debug, PartialEq)]
pub struct JsonObject {
    pairs: Vec<(String, JsonValue)>,
}

/// Mathematical model of [`JsonValue`]: text as character sequences, an array
/// as a sequence of models, an object as a sequence of key/value pairs.
pub enum ValueModel {
    Null,
    Boolean(bool),
    Number(Seq<char>),
    String(Seq<char>),
    Array(Seq<ValueModel>),
    Object(Seq<(Seq<char>, ValueModel)>),
}

/// The model of a value tree.
pub open spec fn value_model(v: JsonValue) -> ValueModel
    decreases v,
{
    match v {
        JsonValue::Null => ValueModel::Null,
        JsonValue::Boolean(b) => ValueModel::Boolean(b),
        JsonValue::Number(s) => ValueModel::Number(s@),
        JsonValue::String(s) => ValueModel::String(s@),
        JsonValue::Array(elems) => ValueModel::Array(array_model(elems@)),
        JsonValue::Object(obj) => ValueModel::Object(obj.pairs_model()),
    }
}

/// The models of the elements of an array.
pub open spec fn array_model(elems: Seq<JsonValue>) -> Seq<ValueModel>
    decreases elems,
{
    if elems.len() == 0 {
        Seq::empty()
    } else {
        seq![value_model(elems[0])] + array_model(elems.drop_first())
    }
}

/// The models of a sequence of key/value pairs.
pub open spec fn members_model(pairs: Seq<(String, JsonValue)>) -> Seq<(Seq<char>, ValueModel)>
    decreases pairs,
{
    if pairs.len() == 0 {
        Seq::empty()
    } else {
        seq![(pairs[0].0@, value_model(pairs[0].1))] + members_model(pairs.drop_first())
    }
}

impl View for JsonValue {
    type V = ValueModel;

    open spec fn view(&self) -> ValueModel {
        value_model(*self)
    }
}

/// `array_model` maps the sequence elementwise.
pub proof fn lemma_array_model_points(elems: Seq<JsonValue>)
    ensures
        array_model(elems).len() == elems.len(),
        forall|i: int| 0 <= i < elems.len() ==> array_model(elems)[i] == value_model(elems[i]),
    decreases elems,
{
    if elems.len() > 0 {
        lemma_array_model_points(elems.drop_first());
    }
}

/// `members_model` maps the sequence elementwise.
pub proof fn lemma_members_model_points(pairs: Seq<(String, JsonValue)>)
    ensures
        members_model(pairs).len() == pairs.len(),
        forall|i: int|
            0 <= i < pairs.len() ==> members_model(pairs)[i] == (pairs[i].0@, value_model(
                pairs[i].1,
            )),
    decreases pairs,
{
    if pairs.len() > 0 {
        lemma_members_model_points(pairs.drop_first());
    }
}

/// The value stored under `key`, if any.
pub open spec fn obj_lookup(pairs: Seq<(Seq<char>, ValueModel)>, key: Seq<char>) -> Option<
    ValueModel,
>
    decreases pairs.len(),
{
    if pairs.len() == 0 {
        None
    } else if pairs[0].0 == key {
        Some(pairs[0].1)
    } else {
        obj_lookup(pairs.skip(1), key)
    }
}

/// Insertion with overwrite: an existing key keeps its position but takes the
/// new value; a new key is appended at the end.
pub open spec fn obj_insert(
    pairs: Seq<(Seq<char>, ValueModel)>,
    key: Seq<char>,
    value: ValueModel,
) -> Seq<(Seq<char>, ValueModel)>
    decreases pairs.len(),
{
    if pairs.len() == 0 {
        seq![(key, value)]
    } else if pairs[0].0 == key {
        seq![(key, value)] + pairs.skip(1)
    } else {
        seq![pairs[0]] + obj_insert(pairs.skip(1), key, value)
    }
}

/// Inserting a pair makes the new value the one found under its key and leaves
/// every other key's binding unchanged; with repeated inserts for one key the
/// last one therefore wins.
pub proof fn lemma_obj_insert_last_wins(
    pairs: Seq<(Seq<char>, ValueModel)>,
    key: Seq<char>,
    value: ValueModel,
)
    ensures
        obj_lookup(obj_insert(pairs, key, value), key) == Some(value),
        forall|other: Seq<char>|
            other != key ==> obj_lookup(obj_insert(pairs, key, value), other) == obj_lookup(
                pairs,
                other,
            ),
    decreases pairs.len(),
{
    let out = obj_insert(pairs, key, value);
    if pairs.len() == 0 {
        assert forall|other: Seq<char>| other != key implies obj_lookup(out, other) == obj_lookup(
            pairs,
            other,
        ) by {
            assert(out[0].0 == key);
            assert(out.skip(1) =~= Seq::<(Seq<char>, ValueModel)>::empty());
            assert(obj_lookup(out, other) == obj_lookup(out.skip(1), other));
        }
    } else if pairs[0].0 == key {
        assert(out.skip(1) =~= pairs.skip(1));
        assert forall|other: Seq<char>| other != key implies obj_lookup(out, other) == obj_lookup(
            pairs,
            other,
        ) by {
            assert(obj_lookup(out, other) == obj_lookup(out.skip(1), other));
        }
    } else {
        lemma_obj_insert_last_wins(pairs.skip(1), key, value);
        assert(out[0] == pairs[0]);
        assert(out.skip(1) =~= obj_insert(pairs.skip(1), key, value));
        assert(obj_lookup(out, key) == obj_lookup(out.skip(1), key));
        assert forall|other: Seq<char>| other != key implies obj_lookup(out, other) == obj_lookup(
            pairs,
            other,
        ) by {
            if pairs[0].0 != other {
                assert(obj_lookup(out, other) == obj_lookup(out.skip(1), other));
                assert(obj_lookup(pairs, other) == obj_lookup(pairs.skip(1), other));
            }
        }
    }
}


/// All keys in the sequence are distinct.
pub open spec fn keys_unique(pairs: Seq<(Seq<char>, ValueModel)>) -> bool {
    forall|i: int, j: int| 0 <= i < j < pairs.len() ==> pairs[i].0 != pairs[j].0
}

/// Insertion with overwrite keeps keys unique: an object built by inserts
/// never holds two members with the same key.
pub proof fn lemma_obj_insert_keeps_keys_unique(
    pairs: Seq<(Seq<char>, ValueModel)>,
    key: Seq<char>,
    value: ValueModel,
)
    requires
        keys_unique(pairs),
    ensures
        keys_unique(obj_insert(pairs, key, value)),
    decreases pairs.len(),
{
    let out = obj_insert(pairs, key, value);
    if pairs.len() == 0 {
    } else if pairs[0].0 == key {
        assert forall|i: int, j: int| 0 <= i < j < out.len() implies out[i].0 != out[j].0 by {
            assert(out[j] == pairs[j]);
            if i > 0 {
                assert(out[i] == pairs[i]);
            }
        }
    } else {
        assert(keys_unique(pairs.skip(1)));
        lemma_obj_insert_keeps_keys_unique(pairs.skip(1), key, value);
        let rest = obj_insert(pairs.skip(1), key, value);
        lemma_obj_insert_key_set(pairs.skip(1), key, value);
        assert forall|i: int, j: int| 0 <= i < j < out.len() implies out[i].0 != out[j].0 by {
            assert(out[j] == rest[j - 1]);
            if i > 0 {
                assert(out[i] == rest[i - 1]);
            }
        }
    }
}

/// Every key of the inserted sequence is the new key or one already there.
proof fn lemma_obj_insert_key_set(
    pairs: Seq<(Seq<char>, ValueModel)>,
    key: Seq<char>,
    value: ValueModel,
)
    ensures
        forall|i: int|
            0 <= i < obj_insert(pairs, key, value).len() ==> obj_insert(pairs, key, value)[i].0
                == key || exists|j: int|
                0 <= j < pairs.len() && pairs[j].0 == #[trigger] obj_insert(
                    pairs,
                    key,
                    value,
                )[i].0,
    decreases pairs.len(),
{
    let out = obj_insert(pairs, key, value);
    if pairs.len() == 0 {
    } else if pairs[0].0 == key {
        assert forall|i: int| 0 <= i < out.len() implies out[i].0 == key || exists|j: int|
            0 <= j < pairs.len() && pairs[j].0 == out[i].0 by {
            if i > 0 {
                assert(out[i] == pairs[i]);
            }
        }
    } else {
        lemma_obj_insert_key_set(pairs.skip(1), key, value);
        let rest = obj_insert(pairs.skip(1), key, value);
        assert forall|i: int| 0 <= i < out.len() implies out[i].0 == key || exists|j: int|
            0 <= j < pairs.len() && pairs[j].0 == out[i].0 by {
            if i == 0 {
                assert(pairs[0].0 == out[0].0);
            } else {
                assert(out[i] == rest[i - 1]);
                if rest[i - 1].0 != key {
                    let j = choose|j: int|
                        0 <= j < pairs.skip(1).len() && pairs.skip(1)[j].0 == rest[i - 1].0;
                    assert(pairs[j + 1].0 == out[i].0);
                }
            }
        }
    }
}

impl JsonObject {
    /// The model of this object's members.
    pub closed spec fn pairs_model(&self) -> Seq<(Seq<char>, ValueModel)>
        decreases self,
    {
        members_model(self.pairs@)
    }

    /// An object with no members.
    pub fn new() -> (r: JsonObject)
        ensures
            r.pairs_model() == Seq::<(Seq<char>, ValueModel)>::empty(),
    {
        JsonObject { pairs: Vec::new() }
    }

    /// The number of members.
    pub fn len(&self) -> (r: usize)
        ensures
            r == self.pairs_model().len(),
    {
        proof {
            lemma_members_model_points(self.pairs@);
        }
        self.pairs.len()
    }

    /// Adds `key` with `value`, overwriting the value of an existing `key`.
    pub fn insert(&mut self, key: String, value: JsonValue)
        ensures
            final(self).pairs_model() == obj_insert(
                old(self).pairs_model(),
                key@,
                value_model(value),
            ),
    {
        let ghost pairs0 = self.pairs_model();
        proof {
            lemma_members_model_points(self.pairs@);
        }
        let mut i: usize = 0;
        while i < self.pairs.len()
            invariant
                0 <= i <= self.pairs.len(),
                self.pairs_model() == pairs0,
                pairs0 == old(self).pairs_model(),
                pairs0 == members_model(self.pairs@),
                pairs0.len() == self.pairs@.len(),
                forall|j: int|
                    0 <= j < self.pairs@.len() ==> pairs0[j] == (self.pairs@[j].0@, value_model(
                        self.pairs@[j].1,
                    )),
                forall|j: int| 0 <= j < i ==> pairs0[j].0 != key@,
            decreases self.pairs.len() - i,
        {
            if self.pairs[i].0 == key {
                let ghost before = self.pairs@;
                self.pairs[i] = (key, value);
                proof {
                    lemma_obj_insert_prefix(pairs0, key@, value_model(value), i as int);
                    lemma_members_model_points(self.pairs@);
                    assert(self.pairs@ == before.update(i as int, (key, value)));
                    assert forall|j: int| 0 <= j < pairs0.len() implies self.pairs_model()[j]
                        == obj_insert(pairs0, key@, value_model(value))[j] by {
                        assert(obj_insert(pairs0, key@, value_model(value))[j] == pairs0.update(
                            i as int,
                            (key@, value_model(value)),
                        )[j]);
                    }
                    assert(self.pairs_model() =~= obj_insert(pairs0, key@, value_model(value)));
                }
                return ;
            }
            i = i + 1;
        }
        self.pairs.push((key, value));
        proof {
            lemma_obj_insert_append(pairs0, key@, value_model(value));
            lemma_members_model_points(self.pairs@);
            assert(self.pairs_model() =~= obj_insert(pairs0, key@, value_model(value)));
        }
    }

    /// Renders this object as text, for display.
    #[verifier::loop_isolation(false)]
    pub fn to_text(&self) -> (r: String)
        ensures
            r@ == spec_render(ValueModel::Object(self.pairs_model())),
        decreases *self, 1int,
    {
        let ghost pm = self.pairs_model();
        proof {
            lemma_members_model_points(self.pairs@);
        }
        let mut out = String::from_str("{");
        let mut i: usize = 0;
        while i < self.pairs.len()
            invariant
                0 <= i <= self.pairs.len(),
                out@ == "{"@ + spec_render_members(pm, i as int),
            decreases self.pairs.len() - i,
        {
            if i > 0 {
                out.append(", ");
            }
            out.append("\"");
            out.append(self.pairs[i].0.as_str());
            out.append("\": ");
            let piece = self.pairs[i].1.to_text();
            out.append(piece.as_str());
            i = i + 1;
        }
        out.append("}");
        out
    }

    /// The value stored under `key`, if any.
    pub fn get(&self, key: &str) -> (r: Option<&JsonValue>)
        ensures
            match r {
                Some(v) => obj_lookup(self.pairs_model(), key@) == Some(value_model(*v)),
                None => obj_lookup(self.pairs_model(), key@) is None,
            },
    {
        proof {
            lemma_members_model_points(self.pairs@);
        }
        let mut i: usize = 0;
        while i < self.pairs.len()
            invariant
                0 <= i <= self.pairs.len(),
                self.pairs_model().len() == self.pairs@.len(),
                forall|j: int|
                    0 <= j < self.pairs@.len() ==> self.pairs_model()[j] == (self.pairs@[j].0@,
                    value_model(self.pairs@[j].1)),
                forall|j: int| 0 <= j < i ==> self.pairs_model()[j].0 != key@,
            decreases self.pairs.len() - i,
        {
            let owned = key.to_owned();
            if self.pairs[i].0 == owned {
                proof {
                    lemma_obj_lookup_at(self.pairs_model(), key@, i as int);
                }
                return Some(&self.pairs[i].1);
            }
            i = i + 1;
        }
        proof {
            lemma_obj_lookup_none(self.pairs_model(), key@);
        }
        None
    }
}

/// If the first `i` keys differ from `key` and the key at `i` matches,
/// inserting overwrites position `i` in place.
proof fn lemma_obj_insert_prefix(
    pairs: Seq<(Seq<char>, ValueModel)>,
    key: Seq<char>,
    value: ValueModel,
    i: int,
)
    requires
        0 <= i < pairs.len(),
        forall|j: int| 0 <= j < i ==> pairs[j].0 != key,
        pairs[i].0 == key,
    ensures
        obj_insert(pairs, key, value) =~= pairs.update(i, (key, value)),
    decreases i,
{
    if i == 0 {
        assert(obj_insert(pairs, key, value) =~= seq![(key, value)] + pairs.skip(1));
    } else {
        lemma_obj_insert_prefix(pairs.skip(1), key, value, i - 1);
        assert(obj_insert(pairs, key, value) =~= seq![pairs[0]] + obj_insert(
            pairs.skip(1),
            key,
            value,
        ));
        assert(pairs.skip(1).update(i - 1, (key, value)) =~= pairs.update(i, (key, value)).skip(1));
    }
}

/// If no key matches, inserting appends the pair at the end.
proof fn lemma_obj_insert_append(
    pairs: Seq<(Seq<char>, ValueModel)>,
    key: Seq<char>,
    value: ValueModel,
)
    requires
        forall|j: int| 0 <= j < pairs.len() ==> pairs[j].0 != key,
    ensures
        obj_insert(pairs, key, value) =~= pairs.push((key, value)),
    decreases pairs.len(),
{
    if pairs.len() == 0 {
    } else {
        lemma_obj_insert_append(pairs.skip(1), key, value);
        assert(pairs.skip(1).push((key, value)) =~= pairs.push((key, value)).skip(1));
    }
}

/// If the first `i` keys differ from `key` and the key at `i` matches,
/// lookup yields the value at `i`.
proof fn lemma_obj_lookup_at(pairs: Seq<(Seq<char>, ValueModel)>, key: Seq<char>, i: int)
    requires
        0 <= i < pairs.len(),
        forall|j: int| 0 <= j < i ==> pairs[j].0 != key,
        pairs[i].0 == key,
    ensures
        obj_lookup(pairs, key) == Some(pairs[i].1),
    decreases i,
{
    if i > 0 {
        lemma_obj_lookup_at(pairs.skip(1), key, i - 1);
    }
}

/// If no key matches, lookup yields nothing.
proof fn lemma_obj_lookup_none(pairs: Seq<(Seq<char>, ValueModel)>, key: Seq<char>)
    requires
        forall|j: int| 0 <= j < pairs.len() ==> pairs[j].0 != key,
    ensures
        obj_lookup(pairs, key) is None,
    decreases pairs.len(),
{
    if pairs.len() > 0 {
        lemma_obj_lookup_none(pairs.skip(1), key);
    }
}

/// The textual rendering of a value: `null`, the booleans, a number's
/// lexeme, a double-quoted string (embedded characters unescaped), and
/// comma-and-space separated containers. A display aid, not a format
/// contract: it does not round-trip through the parser for every value.
pub open spec fn spec_render(v: ValueModel) -> Seq<char>
    decreases v, 0int,
{
    match v {
        ValueModel::Null => "null"@,
        ValueModel::Boolean(b) => if b {
            "true"@
        } else {
            "false"@
        },
        ValueModel::Number(s) => s,
        ValueModel::String(s) => "\""@ + s + "\""@,
        ValueModel::Array(elems) => "["@ + spec_render_elems(elems, elems.len() as int) + "]"@,
        ValueModel::Object(ps) => "{"@ + spec_render_members(ps, ps.len() as int) + "}"@,
    }
}

/// The rendering of the first `i` elements, comma-and-space separated.
pub open spec fn spec_render_elems(elems: Seq<ValueModel>, i: int) -> Seq<char>
    decreases elems, i,
    when 0 <= i <= elems.len()
{
    if i <= 0 {
        Seq::empty()
    } else if i == 1 {
        spec_render(elems[0])
    } else {
        spec_render_elems(elems, i - 1) + ", "@ + spec_render(elems[i - 1])
    }
}

/// The rendering of the first `i` members, comma-and-space separated, each
/// as its double-quoted key, a colon and a space, and its value.
pub open spec fn spec_render_members(ps: Seq<(Seq<char>, ValueModel)>, i: int) -> Seq<char>
    decreases ps, i,
    when 0 <= i <= ps.len()
{
    if i <= 0 {
        Seq::empty()
    } else if i == 1 {
        "\""@ + ps[0].0 + "\": "@ + spec_render(ps[0].1)
    } else {
        spec_render_members(ps, i - 1) + ", "@ + "\""@ + ps[i - 1].0 + "\": "@ + spec_render(
            ps[i - 1].1,
        )
    }
}

impl JsonValue {
    /// Renders this value as text, for display.
    #[verifier::loop_isolation(false)]
    pub fn to_text(&self) -> (r: String)
        ensures
            r@ == spec_render(value_model(*self)),
        decreases *self, 0int,
    {
        match self {
            JsonValue::Null => String::from_str("null"),
            JsonValue::Boolean(b) => {
                if *b {
                    String::from_str("true")
                } else {
                    String::from_str("false")
                }
            }
            JsonValue::Number(s) => s.clone(),
            JsonValue::String(s) => {
                let mut out = String::from_str("\"");
                out.append(s.as_str());
                out.append("\"");
                out
            }
            JsonValue::Array(elems) => {
                let ghost em = array_model(elems@);
                proof {
                    lemma_array_model_points(elems@);
                }
                let mut out = String::from_str("[");
                let mut i: usize = 0;
                while i < elems.len()
                    invariant
                        0 <= i <= elems.len(),
                        out@ == "["@ + spec_render_elems(em, i as int),
                    decreases elems.len() - i,
                {
                    if i > 0 {
                        out.append(", ");
                    }
                    let piece = elems[i].to_text();
                    out.append(piece.as_str());
                    i = i + 1;
                }
                out.append("]");
                out
            }
            JsonValue::Object(obj) => obj.to_text(),
        }
    }
}

} // verus!
