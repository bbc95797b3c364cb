//! The JSON-compatible structured value model and the deep-merge algorithm.

use vstd::prelude::*;

verus! {

/// A numeric value: a signed integer, an unsigned integer, or the bit
/// pattern of a finite IEEE 754 double. Floating-point data crosses the
/// library boundary as raw bits so that the composition logic itself stays
/// free of host float semantics; the host converts at the edge.
#[derive(Clone, Copy, PartialEq, Eq, Structural, Debug)]
pub enum NumberValue {
    Int(i64),
    UInt(u64),
    FloatBits(u64),
}

/// True when `bits`, read as an IEEE 754 double, is finite: the exponent
/// field is not all ones (all ones encodes an infinity or a NaN).
pub open spec fn float_bits_finite(bits: u64) -> bool {
    bits & 0x7ff0_0000_0000_0000u64 != 0x7ff0_0000_0000_0000u64
}

/// Executable finiteness test for a double's bit pattern.
pub fn is_finite_bits(bits: u64) -> (r: bool)
    ensures
        r == float_bits_finite(bits),
{
    bits & 0x7ff0_0000_0000_0000u64 != 0x7ff0_0000_0000_0000u64
}

impl NumberValue {
    /// A number is well formed when a float payload encodes a finite double.
    pub open spec fn wf(self) -> bool {
        match self {
            NumberValue::FloatBits(bits) => float_bits_finite(bits),
            _ => true,
        }
    }
}

/// A JSON-compatible structured value: the lingua franca for schema data.
///
/// Objects keep their fields in insertion order with unique keys; the order
/// carries no meaning, but keeping it makes every operation deterministic.
#[derive(Debug)]
pub enum StructuredValue {
    Null,
    Bool(bool),
    Number(NumberValue),
    Text(String),
    Array(Vec<StructuredValue>),
    Object(Vec<(String, StructuredValue)>),
}

/// The mathematical model of a [`StructuredValue`].
pub enum ValueModel {
    Null,
    Bool(bool),
    Number(NumberValue),
    Text(Seq<char>),
    Array(Seq<ValueModel>),
    Object(Seq<(Seq<char>, ValueModel)>),
}

/// The model of one object field: a key and a value.
pub type FieldModel = (Seq<char>, ValueModel);

/// The model of a structured value.
pub open spec fn value_model(v: StructuredValue) -> ValueModel
    decreases v,
{
    match v {
        StructuredValue::Null => ValueModel::Null,
        StructuredValue::Bool(b) => ValueModel::Bool(b),
        StructuredValue::Number(n) => ValueModel::Number(n),
        StructuredValue::Text(s) => ValueModel::Text(s@),
        StructuredValue::Array(items) => ValueModel::Array(value_models(items@)),
        StructuredValue::Object(fields) => ValueModel::Object(field_models(fields@)),
    }
}

/// The models of a sequence of structured values, elementwise.
pub open spec fn value_models(items: Seq<StructuredValue>) -> Seq<ValueModel>
    decreases items,
{
    if items.len() == 0 {
        Seq::empty()
    } else {
        seq![value_model(items[0])] + value_models(items.drop_first())
    }
}

/// The models of a sequence of object fields, elementwise.
pub open spec fn field_models(fields: Seq<(String, StructuredValue)>) -> Seq<FieldModel>
    decreases fields,
{
    if fields.len() == 0 {
        Seq::empty()
    } else {
        seq![(fields[0].0@, value_model(fields[0].1))] + field_models(fields.drop_first())
    }
}

/// `value_models` maps elementwise.
pub proof fn lemma_value_models_index(items: Seq<StructuredValue>)
    ensures
        value_models(items).len() == items.len(),
        forall|i: int| 0 <= i < items.len()
            ==> #[trigger] value_models(items)[i] == value_model(items[i]),
    decreases items.len(),
{
    if items.len() > 0 {
        lemma_value_models_index(items.drop_first());
    }
}

/// `field_models` maps elementwise.
pub proof fn lemma_field_models_index(fields: Seq<(String, StructuredValue)>)
    ensures
        field_models(fields).len() == fields.len(),
        forall|i: int| 0 <= i < fields.len()
            ==> #[trigger] field_models(fields)[i]
                == (fields[i].0@, value_model(fields[i].1)),
    decreases fields.len(),
{
    if fields.len() > 0 {
        lemma_field_models_index(fields.drop_first());
    }
}

impl View for StructuredValue {
    type V = ValueModel;

    open spec fn view(&self) -> ValueModel {
        value_model(*self)
    }
}

/// Keys of an object's field sequence are pairwise distinct.
pub open spec fn unique_keys(fields: Seq<FieldModel>) -> bool {
    forall|i: int, j: int|
        0 <= i < j < fields.len() ==> fields[i].0 != fields[j].0
}

/// Every value of a sequence is well formed.
pub open spec fn values_wf(items: Seq<ValueModel>) -> bool
    decreases items, 0nat,
{
    if items.len() == 0 {
        true
    } else {
        items[0].wf() && values_wf(items.drop_first())
    }
}

/// Every value of a field sequence is well formed.
pub open spec fn field_values_wf(fields: Seq<FieldModel>) -> bool
    decreases fields, 0nat,
{
    if fields.len() == 0 {
        true
    } else {
        fields[0].1.wf() && field_values_wf(fields.drop_first())
    }
}

/// A field sequence is well formed when its keys are unique and all its
/// values are well formed.
pub open spec fn fields_wf(fields: Seq<FieldModel>) -> bool
    decreases fields, 1nat,
{
    unique_keys(fields) && field_values_wf(fields)
}

impl ValueModel {
    /// Well-formedness: no non-finite number anywhere, and every object has
    /// unique keys. Every value produced by conversion or merging satisfies
    /// this invariant.
    pub open spec fn wf(self) -> bool
        decreases self, 0nat,
    {
        match self {
            ValueModel::Number(n) => n.wf(),
            ValueModel::Array(items) => values_wf(items),
            ValueModel::Object(fields) => fields_wf(fields),
            _ => true,
        }
    }
}

/// Some field of `fields` carries `key`.
pub open spec fn has_key(fields: Seq<FieldModel>, key: Seq<char>) -> bool {
    exists|i: int| 0 <= i < fields.len() && fields[i].0 == key
}

/// The value of the first field of `fields` carrying `key`
/// (`ValueModel::Null` when no field does).
pub open spec fn lookup(fields: Seq<FieldModel>, key: Seq<char>) -> ValueModel
    decreases fields,
{
    if fields.len() == 0 {
        ValueModel::Null
    } else if fields[0].0 == key {
        fields[0].1
    } else {
        lookup(fields.drop_first(), key)
    }
}

/// `fields` with the first field carrying `key` replaced by `(key, v)`,
/// or with `(key, v)` appended when no field carries `key`.
pub open spec fn set_key(fields: Seq<FieldModel>, key: Seq<char>, v: ValueModel) -> Seq<FieldModel>
    decreases fields,
{
    if fields.len() == 0 {
        seq![(key, v)]
    } else if fields[0].0 == key {
        seq![(key, v)] + fields.drop_first()
    } else {
        seq![fields[0]] + set_key(fields.drop_first(), key, v)
    }
}

/// Deep merge with array replacement. When both sides are objects, the
/// incoming fields are folded into the target one at a time, in order:
/// a key already present has its value merged recursively, a fresh key is
/// appended. In every other case — scalars, arrays, or a type mismatch —
/// the incoming value replaces the target outright.
pub open spec fn merged(target: ValueModel, incoming: ValueModel) -> ValueModel
    decreases incoming,
{
    match (target, incoming) {
        (ValueModel::Object(tf), ValueModel::Object(incf)) =>
            ValueModel::Object(merged_fields(tf, incf)),
        (_, inc) => inc,
    }
}

/// Folds the incoming fields into the target fields, left to right.
pub open spec fn merged_fields(tf: Seq<FieldModel>, incf: Seq<FieldModel>) -> Seq<FieldModel>
    decreases incf,
{
    if incf.len() == 0 {
        tf
    } else {
        let key = incf[0].0;
        let inc_v = incf[0].1;
        let new_v = if has_key(tf, key) {
            merged(lookup(tf, key), inc_v)
        } else {
            inc_v
        };
        merged_fields(set_key(tf, key, new_v), incf.drop_first())
    }
}

/// The size of a value: the number of scalar, array and object nodes in it.
/// Serves as a termination measure for executable recursion over values
/// reached through clones and container views.
pub open spec fn value_size(v: ValueModel) -> nat
    decreases v,
{
    match v {
        ValueModel::Array(items) => 1 + seq_size(items),
        ValueModel::Object(fields) => 1 + fields_size(fields),
        _ => 1,
    }
}

/// The summed size of a sequence of values.
pub open spec fn seq_size(items: Seq<ValueModel>) -> nat
    decreases items,
{
    if items.len() == 0 {
        0
    } else {
        value_size(items[0]) + seq_size(items.drop_first())
    }
}

/// The summed size of the values of a field sequence.
pub open spec fn fields_size(fields: Seq<FieldModel>) -> nat
    decreases fields,
{
    if fields.len() == 0 {
        0
    } else {
        value_size(fields[0].1) + fields_size(fields.drop_first())
    }
}

/// Every element of a sequence weighs no more than the whole sequence.
pub proof fn lemma_seq_size_index(items: Seq<ValueModel>, i: int)
    requires
        0 <= i < items.len(),
    ensures
        value_size(items[i]) <= seq_size(items),
    decreases items.len(),
{
    if i > 0 {
        lemma_seq_size_index(items.drop_first(), i - 1);
    }
}

/// Every field value weighs no more than the whole field sequence.
pub proof fn lemma_fields_size_index(fields: Seq<FieldModel>, i: int)
    requires
        0 <= i < fields.len(),
    ensures
        value_size(fields[i].1) <= fields_size(fields),
    decreases fields.len(),
{
    if i > 0 {
        lemma_fields_size_index(fields.drop_first(), i - 1);
    }
}

/// When the first field carrying `key` stands at `j`, `lookup` yields its value.
pub proof fn lemma_lookup_first(fields: Seq<FieldModel>, key: Seq<char>, j: int)
    requires
        0 <= j < fields.len(),
        fields[j].0 == key,
        forall|l: int| 0 <= l < j ==> fields[l].0 != key,
    ensures
        lookup(fields, key) == fields[j].1,
    decreases j,
{
    if j > 0 {
        lemma_lookup_first(fields.drop_first(), key, j - 1);
    }
}

/// When the first field carrying `key` stands at `j`, `set_key` updates it in place.
pub proof fn lemma_set_key_first(fields: Seq<FieldModel>, key: Seq<char>, v: ValueModel, j: int)
    requires
        0 <= j < fields.len(),
        fields[j].0 == key,
        forall|l: int| 0 <= l < j ==> fields[l].0 != key,
    ensures
        set_key(fields, key, v) =~= fields.update(j, (key, v)),
    decreases j,
{
    if j > 0 {
        lemma_set_key_first(fields.drop_first(), key, v, j - 1);
        assert(set_key(fields, key, v)
            =~= seq![fields[0]] + fields.drop_first().update(j - 1, (key, v)));
    }
}

/// When no field carries `key`, `set_key` appends.
pub proof fn lemma_set_key_absent(fields: Seq<FieldModel>, key: Seq<char>, v: ValueModel)
    requires
        !has_key(fields, key),
    ensures
        set_key(fields, key, v) =~= fields.push((key, v)),
    decreases fields.len(),
{
    if fields.len() > 0 {
        assert(fields[0].0 != key);
        assert(!has_key(fields.drop_first(), key)) by {
            assert forall|i: int| 0 <= i < fields.drop_first().len()
                implies fields.drop_first()[i].0 != key by {
                assert(fields.drop_first()[i] == fields[i + 1]);
            }
        }
        lemma_set_key_absent(fields.drop_first(), key, v);
    }
}

/// The index of the first field of `fields` whose key equals `key`.
pub(crate) fn find_key(fields: &Vec<(String, StructuredValue)>, key: &String) -> (r: Option<usize>)
    ensures
        match r {
            Some(j) => {
                &&& 0 <= j < fields@.len()
                &&& field_models(fields@)[j as int].0 == key@
                &&& forall|l: int| 0 <= l < j ==> field_models(fields@)[l].0 != key@
            },
            None => !has_key(field_models(fields@), key@),
        },
{
    proof {
        lemma_field_models_index(fields@);
    }
    let mut j: usize = 0;
    while j < fields.len()
        invariant
            j <= fields@.len(),
            field_models(fields@).len() == fields@.len(),
            forall|l: int| 0 <= l < fields@.len()
                ==> #[trigger] field_models(fields@)[l] == (fields@[l].0@, value_model(fields@[l].1)),
            forall|l: int| 0 <= l < j ==> field_models(fields@)[l].0 != key@,
        decreases fields@.len() - j,
    {
        if fields[j].0 == *key {
            return Some(j);
        }
        j += 1;
    }
    None
}

impl Clone for StructuredValue {
    /// A structural copy: the clone has the same model as the original.
    fn clone(&self) -> (r: Self)
        ensures
            r@ == self@,
        decreases value_size(self@),
    {
        match self {
            StructuredValue::Null => StructuredValue::Null,
            StructuredValue::Bool(b) => StructuredValue::Bool(*b),
            StructuredValue::Number(n) => StructuredValue::Number(*n),
            StructuredValue::Text(s) => StructuredValue::Text(s.clone()),
            StructuredValue::Array(items) => {
                let mut out: Vec<StructuredValue> = Vec::new();
                let mut i: usize = 0;
                while i < items.len()
                    invariant
                        i <= items@.len(),
                        out@.len() == i as int,
                        self@ == ValueModel::Array(value_models(items@)),
                        forall|l: int| 0 <= l < i ==> (#[trigger] out@[l])@ == items@[l]@,
                    decreases items@.len() - i,
                {
                    proof {
                        lemma_value_models_index(items@);
                        lemma_seq_size_index(value_models(items@), i as int);
                    }
                    let item = items[i].clone();
                    out.push(item);
                    i += 1;
                }
                proof {
                    lemma_value_models_index(out@);
                    lemma_value_models_index(items@);
                    assert(value_models(out@) =~= value_models(items@));
                }
                StructuredValue::Array(out)
            },
            StructuredValue::Object(fields) => {
                let mut out: Vec<(String, StructuredValue)> = Vec::new();
                let mut i: usize = 0;
                while i < fields.len()
                    invariant
                        i <= fields@.len(),
                        out@.len() == i as int,
                        self@ == ValueModel::Object(field_models(fields@)),
                        forall|l: int| 0 <= l < i
                            ==> (#[trigger] out@[l]).0@ == fields@[l].0@
                                && out@[l].1@ == fields@[l].1@,
                    decreases fields@.len() - i,
                {
                    proof {
                        lemma_field_models_index(fields@);
                        lemma_fields_size_index(field_models(fields@), i as int);
                    }
                    let key = fields[i].0.clone();
                    let val = fields[i].1.clone();
                    out.push((key, val));
                    i += 1;
                }
                proof {
                    lemma_field_models_index(out@);
                    lemma_field_models_index(fields@);
                    assert(field_models(out@) =~= field_models(fields@));
                }
                StructuredValue::Object(out)
            },
        }
    }
}

/// Merges `incoming` into `target` and returns the result:
/// deep merge for nested objects, replacement for everything else.
pub fn merge_values(target: StructuredValue, incoming: &StructuredValue) -> (r: StructuredValue)
    ensures
        r@ == merged(target@, incoming@),
    decreases value_size(incoming@),
{
    match target {
        StructuredValue::Object(mut tf) => match incoming {
            StructuredValue::Object(incf) => {
                let ghost tf0 = field_models(tf@);
                let ghost incfm = field_models(incf@);
                proof {
                    lemma_field_models_index(incf@);
                    assert(incoming@ == ValueModel::Object(incfm));
                    assert(incfm.skip(0) =~= incfm);
                }
                let mut i: usize = 0;
                while i < incf.len()
                    invariant
                        i <= incf@.len(),
                        incoming@ == ValueModel::Object(incfm),
                        incfm == field_models(incf@),
                        incfm.len() == incf@.len(),
                        merged_fields(tf0, incfm)
                            == merged_fields(field_models(tf@), incfm.skip(i as int)),
                    decreases incf@.len() - i,
                {
                    let ghost tfv = tf@;
                    let ghost tfm = field_models(tf@);
                    let ghost rest = incfm.skip(i as int);
                    proof {
                        lemma_field_models_index(incf@);
                        lemma_field_models_index(tfv);
                        assert(rest[0] == incfm[i as int]);
                        assert(rest.drop_first() =~= incfm.skip(i as int + 1));
                    }
                    let key: &String = &incf[i].0;
                    let inc_v: &StructuredValue = &incf[i].1;
                    proof {
                        lemma_fields_size_index(incfm, i as int);
                        assert(incoming@ == ValueModel::Object(incfm));
                        assert(value_size(incoming@) == 1 + fields_size(incfm));
                    }
                    match find_key(&tf, key) {
                        Some(j) => {
                            let pair = tf.remove(j);
                            proof {
                                lemma_lookup_first(tfm, key@, j as int);
                                assert(lookup(tfm, key@) == pair.1@);
                            }
                            let new_v = merge_values(pair.1, inc_v);
                            tf.insert(j, (pair.0, new_v));
                            proof {
                                lemma_set_key_first(tfm, key@, new_v@, j as int);
                                assert(tf@ =~= tfv.update(j as int, (pair.0, new_v)));
                                lemma_field_models_index(tf@);
                                assert(field_models(tf@) =~= set_key(tfm, key@, new_v@));
                            }
                        },
                        None => {
                            let key_c = key.clone();
                            let inc_c = inc_v.clone();
                            tf.push((key_c, inc_c));
                            proof {
                                lemma_set_key_absent(tfm, key@, inc_c@);
                                lemma_field_models_index(tf@);
                                assert(field_models(tf@) =~= set_key(tfm, key@, inc_c@));
                            }
                        },
                    }
                    i += 1;
                }
                proof {
                    assert(incfm.skip(i as int) =~= Seq::<FieldModel>::empty());
                }
                StructuredValue::Object(tf)
            },
            _ => incoming.clone(),
        },
        _ => incoming.clone(),
    }
}

/// A field at any index makes its key present.
pub proof fn lemma_has_key_witness(fields: Seq<FieldModel>, j: int)
    requires
        0 <= j < fields.len(),
    ensures
        has_key(fields, fields[j].0),
{
    assert(0 <= j < fields.len() && fields[j].0 == fields[j].0);
}

/// A sequence's values are well formed exactly when each one is.
pub proof fn lemma_values_wf_iff(items: Seq<ValueModel>)
    ensures
        values_wf(items) == (forall|i: int| 0 <= i < items.len() ==> #[trigger] items[i].wf()),
    decreases items.len(),
{
    if items.len() > 0 {
        let sub = items.drop_first();
        lemma_values_wf_iff(sub);
        if values_wf(items) {
            assert forall|i: int| 0 <= i < items.len() implies #[trigger] items[i].wf() by {
                if i > 0 {
                    assert(sub[i - 1] == items[i]);
                    assert(sub[i - 1].wf());
                }
            }
        }
        if forall|i: int| 0 <= i < items.len() ==> #[trigger] items[i].wf() {
            assert(items[0].wf());
            assert forall|i: int| 0 <= i < sub.len() implies #[trigger] sub[i].wf() by {
                assert(sub[i] == items[i + 1]);
                assert(items[i + 1].wf());
            }
            assert(values_wf(sub));
            assert(values_wf(items));
        }
    }
}

/// A field sequence's values are well formed exactly when each one is.
pub proof fn lemma_field_values_wf_iff(fields: Seq<FieldModel>)
    ensures
        field_values_wf(fields)
            == (forall|i: int| 0 <= i < fields.len() ==> #[trigger] fields[i].1.wf()),
    decreases fields.len(),
{
    if fields.len() > 0 {
        let sub = fields.drop_first();
        lemma_field_values_wf_iff(sub);
        if field_values_wf(fields) {
            assert forall|i: int| 0 <= i < fields.len() implies #[trigger] fields[i].1.wf() by {
                if i > 0 {
                    assert(sub[i - 1] == fields[i]);
                    assert(sub[i - 1].1.wf());
                }
            }
        }
        if forall|i: int| 0 <= i < fields.len() ==> #[trigger] fields[i].1.wf() {
            assert(fields[0].1.wf());
            assert forall|i: int| 0 <= i < sub.len() implies #[trigger] sub[i].1.wf() by {
                assert(sub[i] == fields[i + 1]);
                assert(fields[i + 1].1.wf());
            }
            assert(field_values_wf(sub));
            assert(field_values_wf(fields));
        }
    }
}

/// Well-formedness of a field sequence, spelled out per field.
pub proof fn lemma_fields_wf_value(fields: Seq<FieldModel>, i: int)
    requires
        fields_wf(fields),
        0 <= i < fields.len(),
    ensures
        fields[i].1.wf(),
{
    lemma_field_values_wf_iff(fields);
}

/// Dropping the first field keeps a field sequence well formed.
pub proof fn lemma_fields_wf_drop(fields: Seq<FieldModel>)
    requires
        fields_wf(fields),
        fields.len() > 0,
    ensures
        fields_wf(fields.drop_first()),
{
    lemma_unique_keys_drop(fields);
}

/// Dropping the first field keeps keys unique.
pub proof fn lemma_unique_keys_drop(fields: Seq<FieldModel>)
    requires
        unique_keys(fields),
        fields.len() > 0,
    ensures
        unique_keys(fields.drop_first()),
{
    let sub = fields.drop_first();
    assert forall|i: int, j: int| 0 <= i < j < sub.len() implies sub[i].0 != sub[j].0 by {
        assert(sub[i] == fields[i + 1]);
        assert(sub[j] == fields[j + 1]);
    }
}

/// A key present in the tail is present in the whole; a key present in the
/// whole but absent at the head is present in the tail.
pub proof fn lemma_has_key_drop(fields: Seq<FieldModel>, key: Seq<char>)
    requires
        fields.len() > 0,
    ensures
        has_key(fields, key) == (fields[0].0 == key || has_key(fields.drop_first(), key)),
{
    let sub = fields.drop_first();
    if has_key(fields, key) {
        let i = choose|i: int| 0 <= i < fields.len() && fields[i].0 == key;
        if i > 0 {
            assert(sub[i - 1] == fields[i]);
            lemma_has_key_witness(sub, i - 1);
        }
    }
    if has_key(sub, key) {
        let i = choose|i: int| 0 <= i < sub.len() && sub[i].0 == key;
        assert(sub[i] == fields[i + 1]);
        lemma_has_key_witness(fields, i + 1);
    }
}

/// How `set_key` changes key presence and key values, under unique keys.
pub proof fn lemma_set_key_props(fields: Seq<FieldModel>, key: Seq<char>, v: ValueModel)
    requires
        unique_keys(fields),
    ensures
        unique_keys(set_key(fields, key, v)),
        forall|k2: Seq<char>| #[trigger] has_key(set_key(fields, key, v), k2)
            == (has_key(fields, k2) || k2 == key),
        lookup(set_key(fields, key, v), key) == v,
        forall|k2: Seq<char>| k2 != key
            ==> #[trigger] lookup(set_key(fields, key, v), k2) == lookup(fields, k2),
    decreases fields.len(),
{
    let out = set_key(fields, key, v);
    if fields.len() == 0 {
        assert(out =~= seq![(key, v)]);
        assert forall|k2: Seq<char>| #[trigger] has_key(out, k2)
            implies (has_key(fields, k2) || k2 == key) by {
            let i = choose|i: int| 0 <= i < out.len() && out[i].0 == k2;
            assert(out[i] == (key, v));
        }
        assert forall|k2: Seq<char>| has_key(fields, k2) || k2 == key
            implies #[trigger] has_key(out, k2) by {
            lemma_has_key_witness(out, 0);
        }
        assert forall|k2: Seq<char>| k2 != key
            implies #[trigger] lookup(out, k2) == lookup(fields, k2) by {
            reveal_with_fuel(lookup, 2);
            assert(out.drop_first() =~= Seq::<FieldModel>::empty());
        }
    } else if fields[0].0 == key {
        assert(out =~= seq![(key, v)] + fields.drop_first());
        assert(out.drop_first() =~= fields.drop_first());
        assert(unique_keys(out)) by {
            assert forall|i: int, j: int| 0 <= i < j < out.len()
                implies out[i].0 != out[j].0 by {
                assert(out[j] == fields.drop_first()[j - 1]);
                assert(out[j] == fields[j]);
                if i > 0 {
                    assert(out[i] == fields[i]);
                }
            }
        }
        assert forall|k2: Seq<char>| #[trigger] has_key(out, k2)
            implies (has_key(fields, k2) || k2 == key) by {
            let i = choose|i: int| 0 <= i < out.len() && out[i].0 == k2;
            if i > 0 {
                assert(out[i] == fields[i]);
                lemma_has_key_witness(fields, i);
            }
        }
        assert forall|k2: Seq<char>| has_key(fields, k2) || k2 == key
            implies #[trigger] has_key(out, k2) by {
            if k2 == key {
                lemma_has_key_witness(out, 0);
            } else {
                let i = choose|i: int| 0 <= i < fields.len() && fields[i].0 == k2;
                assert(out[i] == fields[i]);
                lemma_has_key_witness(out, i);
            }
        }
        assert forall|k2: Seq<char>| k2 != key
            implies #[trigger] lookup(out, k2) == lookup(fields, k2) by {
            assert(lookup(out, k2) == lookup(out.drop_first(), k2));
            assert(lookup(fields, k2) == lookup(fields.drop_first(), k2));
        }
    } else {
        let sub = fields.drop_first();
        let sout = set_key(sub, key, v);
        lemma_unique_keys_drop(fields);
        lemma_set_key_props(sub, key, v);
        assert(out =~= seq![fields[0]] + sout);
        assert(out.drop_first() =~= sout);
        // the head key differs from every key of the tail
        assert forall|j: int| 0 <= j < sub.len() implies fields[0].0 != sub[j].0 by {
            assert(sub[j] == fields[j + 1]);
        }
        assert(fields[0].0 != key);
        assert(!has_key(sub, fields[0].0)) by {
            if has_key(sub, fields[0].0) {
                let l = choose|l: int| 0 <= l < sub.len() && sub[l].0 == fields[0].0;
            }
        }
        assert(unique_keys(out)) by {
            assert forall|i: int, j: int| 0 <= i < j < out.len()
                implies out[i].0 != out[j].0 by {
                assert(out[j] == sout[j - 1]);
                lemma_has_key_witness(sout, j - 1);
                if i == 0 {
                    assert(has_key(sub, sout[j - 1].0) || sout[j - 1].0 == key);
                } else {
                    assert(out[i] == sout[i - 1]);
                }
            }
        }
        assert forall|k2: Seq<char>| #[trigger] has_key(out, k2)
            implies (has_key(fields, k2) || k2 == key) by {
            let i = choose|i: int| 0 <= i < out.len() && out[i].0 == k2;
            if i == 0 {
                lemma_has_key_witness(fields, 0);
            } else {
                assert(out[i] == sout[i - 1]);
                lemma_has_key_witness(sout, i - 1);
                if has_key(sub, k2) {
                    lemma_has_key_drop(fields, k2);
                }
            }
        }
        assert forall|k2: Seq<char>| has_key(fields, k2) || k2 == key
            implies #[trigger] has_key(out, k2) by {
            if k2 == key {
                assert(has_key(sout, key));
                let l = choose|l: int| 0 <= l < sout.len() && sout[l].0 == key;
                assert(out[l + 1] == sout[l]);
                lemma_has_key_witness(out, l + 1);
            } else {
                let i = choose|i: int| 0 <= i < fields.len() && fields[i].0 == k2;
                if i == 0 {
                    lemma_has_key_witness(out, 0);
                } else {
                    assert(sub[i - 1] == fields[i]);
                    lemma_has_key_witness(sub, i - 1);
                    assert(has_key(sout, k2));
                    let l = choose|l: int| 0 <= l < sout.len() && sout[l].0 == k2;
                    assert(out[l + 1] == sout[l]);
                    lemma_has_key_witness(out, l + 1);
                }
            }
        }
        assert(lookup(out, key) == v) by {
            assert(out[0].0 != key);
        }
        assert forall|k2: Seq<char>| k2 != key
            implies #[trigger] lookup(out, k2) == lookup(fields, k2) by {
            assert(out[0] == fields[0]);
            if fields[0].0 == k2 {
                assert(lookup(out, k2) == out[0].1);
                assert(lookup(fields, k2) == fields[0].1);
            } else {
                assert(out.drop_first() =~= sout);
                assert(lookup(out, k2) == lookup(sout, k2));
                assert(lookup(fields, k2) == lookup(sub, k2));
            }
        }
    }
}

/// `set_key` with a well-formed value keeps a field sequence well formed.
pub proof fn lemma_set_key_wf(fields: Seq<FieldModel>, key: Seq<char>, v: ValueModel)
    requires
        fields_wf(fields),
        v.wf(),
    ensures
        fields_wf(set_key(fields, key, v)),
    decreases fields.len(),
{
    lemma_set_key_props(fields, key, v);
    let out = set_key(fields, key, v);
    lemma_field_values_wf_iff(fields);
    lemma_field_values_wf_iff(out);
    if fields.len() == 0 {
        assert(out =~= seq![(key, v)]);
        assert forall|i: int| 0 <= i < out.len() implies #[trigger] out[i].1.wf() by {
            assert(out[i] == (key, v));
        }
    } else if fields[0].0 == key {
        assert(out =~= seq![(key, v)] + fields.drop_first());
        assert forall|i: int| 0 <= i < out.len() implies #[trigger] out[i].1.wf() by {
            if i > 0 {
                assert(out[i] == fields.drop_first()[i - 1]);
                assert(out[i] == fields[i]);
            }
        }
    } else {
        lemma_fields_wf_drop(fields);
        lemma_set_key_wf(fields.drop_first(), key, v);
        let sout = set_key(fields.drop_first(), key, v);
        assert(out =~= seq![fields[0]] + sout);
        lemma_field_values_wf_iff(sout);
        assert forall|i: int| 0 <= i < out.len() implies #[trigger] out[i].1.wf() by {
            if i > 0 {
                assert(out[i] == sout[i - 1]);
            }
        }
    }
}

/// `lookup` of a present key yields a well-formed value when the sequence
/// is well formed.
pub proof fn lemma_lookup_wf(fields: Seq<FieldModel>, key: Seq<char>)
    requires
        fields_wf(fields),
        has_key(fields, key),
    ensures
        lookup(fields, key).wf(),
    decreases fields.len(),
{
    if fields.len() > 0 && fields[0].0 == key {
        lemma_fields_wf_value(fields, 0);
    } else {
        let sub = fields.drop_first();
        lemma_fields_wf_drop(fields);
        lemma_has_key_drop(fields, key);
        lemma_lookup_wf(sub, key);
    }
}

/// Merging two well-formed values yields a well-formed value.
pub proof fn lemma_merged_wf(target: ValueModel, incoming: ValueModel)
    requires
        target.wf(),
        incoming.wf(),
    ensures
        merged(target, incoming).wf(),
    decreases incoming,
{
    match (target, incoming) {
        (ValueModel::Object(tf), ValueModel::Object(incf)) => {
            lemma_merged_fields_wf(tf, incf);
        },
        _ => {},
    }
}

/// Folding well-formed incoming fields into well-formed target fields
/// yields well-formed fields.
pub proof fn lemma_merged_fields_wf(tf: Seq<FieldModel>, incf: Seq<FieldModel>)
    requires
        fields_wf(tf),
        fields_wf(incf),
    ensures
        fields_wf(merged_fields(tf, incf)),
    decreases incf,
{
    if incf.len() > 0 {
        let key = incf[0].0;
        let inc_v = incf[0].1;
        lemma_fields_wf_value(incf, 0);
        let new_v = if has_key(tf, key) {
            merged(lookup(tf, key), inc_v)
        } else {
            inc_v
        };
        if has_key(tf, key) {
            lemma_lookup_wf(tf, key);
            lemma_merged_wf(lookup(tf, key), inc_v);
        }
        lemma_set_key_wf(tf, key, new_v);
        lemma_fields_wf_drop(incf);
        lemma_merged_fields_wf(set_key(tf, key, new_v), incf.drop_first());
    }
}

/// The key-by-key meaning of an object merge: a key found on both sides
/// holds the recursive merge of the two values, a key found only on the
/// incoming side holds the incoming value, and a key found only on the
/// target side keeps the target value; no other keys appear, and keys stay
/// unique. Because the incoming side wins wherever both sides carry a key,
/// merging two objects in the opposite order changes the result whenever
/// the values at a shared key differ.
pub proof fn lemma_merged_object_key(tf: Seq<FieldModel>, incf: Seq<FieldModel>, key: Seq<char>)
    requires
        unique_keys(tf),
        unique_keys(incf),
    ensures
        unique_keys(merged_fields(tf, incf)),
        has_key(merged_fields(tf, incf), key) == (has_key(tf, key) || has_key(incf, key)),
        lookup(merged_fields(tf, incf), key) == (
            if has_key(tf, key) && has_key(incf, key) {
                merged(lookup(tf, key), lookup(incf, key))
            } else if has_key(incf, key) {
                lookup(incf, key)
            } else {
                lookup(tf, key)
            }
        ),
    decreases incf.len(),
{
    if incf.len() == 0 {
    } else {
        let k0 = incf[0].0;
        let v0 = incf[0].1;
        let new_v = if has_key(tf, k0) {
            merged(lookup(tf, k0), v0)
        } else {
            v0
        };
        let tf2 = set_key(tf, k0, new_v);
        let sub = incf.drop_first();
        lemma_set_key_props(tf, k0, new_v);
        lemma_unique_keys_drop(incf);
        lemma_has_key_witness(incf, 0);
        // `k0` does not recur in the tail of the incoming fields
        assert(!has_key(sub, k0)) by {
            if has_key(sub, k0) {
                let i = choose|i: int| 0 <= i < sub.len() && sub[i].0 == k0;
                assert(sub[i] == incf[i + 1]);
            }
        }
        lemma_merged_object_key(tf2, sub, key);
        lemma_has_key_drop(incf, key);
        if key == k0 {
            assert(lookup(incf, key) == v0);
            assert(lookup(merged_fields(tf2, sub), key) == lookup(tf2, key));
        } else {
            assert(lookup(incf, key) == lookup(sub, key));
        }
    }
}

/// Whenever either side of a merge is not an object — a scalar, an array,
/// or a type mismatch — the incoming value replaces the target outright.
/// In particular arrays are replaced, never concatenated.
pub proof fn lemma_merge_replaces_non_object(target: ValueModel, incoming: ValueModel)
    requires
        !(target is Object) || !(incoming is Object),
    ensures
        merged(target, incoming) == incoming,
{
}

/// Merge order changes the result whenever a key collides: when both field
/// sequences carry `key` with differing non-object values, merging in one
/// order keeps one value at that key and merging in the other order keeps
/// the other.
pub proof fn lemma_merge_order_matters(tf: Seq<FieldModel>, incf: Seq<FieldModel>, key: Seq<char>)
    requires
        unique_keys(tf),
        unique_keys(incf),
        has_key(tf, key),
        has_key(incf, key),
        lookup(tf, key) != lookup(incf, key),
        !(lookup(tf, key) is Object),
        !(lookup(incf, key) is Object),
    ensures
        lookup(merged_fields(tf, incf), key) == lookup(incf, key),
        lookup(merged_fields(incf, tf), key) == lookup(tf, key),
        lookup(merged_fields(tf, incf), key) != lookup(merged_fields(incf, tf), key),
{
    lemma_merged_object_key(tf, incf, key);
    lemma_merged_object_key(incf, tf, key);
}

} // verus!
