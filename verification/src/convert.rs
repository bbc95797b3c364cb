//! Conversion of host dynamic values into structured values.
//!
//! A host embedding hands the library its dynamic values in the shape of
//! [`DynValue`]: nested mappings, sequences, strings, booleans, integers and
//! doubles (as raw bit patterns), plus a marker for anything outside that
//! allow list. [`convert`] turns such a value into a [`StructuredValue`],
//! rejecting unsupported kinds and non-finite numbers. It is pure: an error
//! leaves no partial result behind.

use vstd::prelude::*;

use crate::value::find_key;
use crate::value::field_models;
use crate::value::field_values_wf;
use crate::value::fields_wf;
use crate::value::float_bits_finite;
use crate::value::has_key;
use crate::value::is_finite_bits;
use crate::value::lemma_field_models_index;
use crate::value::lemma_set_key_absent;
use crate::value::lemma_set_key_first;
use crate::value::lemma_value_models_index;
use crate::value::set_key;
use crate::value::unique_keys;
use crate::value::value_model;
use crate::value::value_models;
use crate::value::values_wf;
use crate::value::FieldModel;
use crate::value::NumberValue;
use crate::value::StructuredValue;
use crate::value::ValueModel;

verus! {

/// Why a conversion failed.
#[derive(Clone, Copy, PartialEq, Eq, Structural, Debug)]
pub enum ConvertError {
    /// The value contains something outside the allow-listed kinds.
    UnsupportedType,
    /// The value contains a NaN or an infinity, which the structured value
    /// model cannot represent.
    NonFiniteNumber,
}

/// A host dynamic value, as the embedding hands it to the library.
///
/// Mapping keys arrive already as strings: a host with non-string keys
/// stringifies them with its own default conversion before the hand-off,
/// so the exact text of such a key is host-defined. A double arrives as
/// its IEEE 754 bit pattern. `Opaque` stands for a value of any dynamic
/// type outside the allow list; its payload describes that type.
#[derive(Debug)]
pub enum DynValue {
    Null,
    Bool(bool),
    Int(i64),
    UInt(u64),
    Float(u64),
    Text(String),
    List(Vec<DynValue>),
    Tuple(Vec<DynValue>),
    Dict(Vec<(String, DynValue)>),
    Opaque(String),
}

/// The mathematical model of a [`DynValue`].
pub enum DynModel {
    Null,
    Bool(bool),
    Int(i64),
    UInt(u64),
    Float(u64),
    Text(Seq<char>),
    List(Seq<DynModel>),
    Tuple(Seq<DynModel>),
    Dict(Seq<(Seq<char>, DynModel)>),
    Opaque(Seq<char>),
}

/// The model of one mapping entry of a dynamic value.
pub type DynFieldModel = (Seq<char>, DynModel);

/// The model of a dynamic value.
pub open spec fn dyn_model(d: DynValue) -> DynModel
    decreases d,
{
    match d {
        DynValue::Null => DynModel::Null,
        DynValue::Bool(b) => DynModel::Bool(b),
        DynValue::Int(i) => DynModel::Int(i),
        DynValue::UInt(u) => DynModel::UInt(u),
        DynValue::Float(bits) => DynModel::Float(bits),
        DynValue::Text(s) => DynModel::Text(s@),
        DynValue::List(items) => DynModel::List(dyn_models(items@)),
        DynValue::Tuple(items) => DynModel::Tuple(dyn_models(items@)),
        DynValue::Dict(pairs) => DynModel::Dict(dyn_field_models(pairs@)),
        DynValue::Opaque(s) => DynModel::Opaque(s@),
    }
}

/// The models of a sequence of dynamic values, elementwise.
pub open spec fn dyn_models(items: Seq<DynValue>) -> Seq<DynModel>
    decreases items,
{
    if items.len() == 0 {
        Seq::empty()
    } else {
        seq![dyn_model(items[0])] + dyn_models(items.drop_first())
    }
}

/// The models of a sequence of mapping entries, elementwise.
pub open spec fn dyn_field_models(pairs: Seq<(String, DynValue)>) -> Seq<DynFieldModel>
    decreases pairs,
{
    if pairs.len() == 0 {
        Seq::empty()
    } else {
        seq![(pairs[0].0@, dyn_model(pairs[0].1))] + dyn_field_models(pairs.drop_first())
    }
}

/// `dyn_models` maps elementwise.
pub proof fn lemma_dyn_models_index(items: Seq<DynValue>)
    ensures
        dyn_models(items).len() == items.len(),
        forall|i: int| 0 <= i < items.len()
            ==> #[trigger] dyn_models(items)[i] == dyn_model(items[i]),
    decreases items.len(),
{
    if items.len() > 0 {
        lemma_dyn_models_index(items.drop_first());
    }
}

/// `dyn_field_models` maps elementwise.
pub proof fn lemma_dyn_field_models_index(pairs: Seq<(String, DynValue)>)
    ensures
        dyn_field_models(pairs).len() == pairs.len(),
        forall|i: int| 0 <= i < pairs.len()
            ==> #[trigger] dyn_field_models(pairs)[i]
                == (pairs[i].0@, dyn_model(pairs[i].1)),
    decreases pairs.len(),
{
    if pairs.len() > 0 {
        lemma_dyn_field_models_index(pairs.drop_first());
    }
}

impl View for DynValue {
    type V = DynModel;

    open spec fn view(&self) -> DynModel {
        dyn_model(*self)
    }
}

/// The size of a dynamic value: a termination measure for executable
/// recursion over values reached through container views.
pub open spec fn dyn_size(d: DynModel) -> nat
    decreases d,
{
    match d {
        DynModel::List(items) => 1 + dyn_seq_size(items),
        DynModel::Tuple(items) => 1 + dyn_seq_size(items),
        DynModel::Dict(pairs) => 1 + dyn_fields_size(pairs),
        _ => 1,
    }
}

/// The summed size of a sequence of dynamic values.
pub open spec fn dyn_seq_size(items: Seq<DynModel>) -> nat
    decreases items,
{
    if items.len() == 0 {
        0
    } else {
        dyn_size(items[0]) + dyn_seq_size(items.drop_first())
    }
}

/// The summed size of the values of a sequence of mapping entries.
pub open spec fn dyn_fields_size(pairs: Seq<DynFieldModel>) -> nat
    decreases pairs,
{
    if pairs.len() == 0 {
        0
    } else {
        dyn_size(pairs[0].1) + dyn_fields_size(pairs.drop_first())
    }
}

/// Every element weighs no more than the whole sequence.
pub proof fn lemma_dyn_seq_size_index(items: Seq<DynModel>, i: int)
    requires
        0 <= i < items.len(),
    ensures
        dyn_size(items[i]) <= dyn_seq_size(items),
    decreases items.len(),
{
    if i > 0 {
        lemma_dyn_seq_size_index(items.drop_first(), i - 1);
    }
}

/// Every entry value weighs no more than the whole entry sequence.
pub proof fn lemma_dyn_fields_size_index(pairs: Seq<DynFieldModel>, i: int)
    requires
        0 <= i < pairs.len(),
    ensures
        dyn_size(pairs[i].1) <= dyn_fields_size(pairs),
    decreases pairs.len(),
{
    if i > 0 {
        lemma_dyn_fields_size_index(pairs.drop_first(), i - 1);
    }
}

/// What converting a dynamic value yields: the recursive allow-list walk.
///
/// Booleans map to `Bool` and never to `Number`: the two kinds are distinct
/// variants here, and the host-side extraction must test booleans before
/// integers so that embeddings where booleans alias integers keep them apart.
pub open spec fn convert_model(d: DynModel) -> Result<ValueModel, ConvertError>
    decreases d,
{
    match d {
        DynModel::Null => Ok(ValueModel::Null),
        DynModel::Bool(b) => Ok(ValueModel::Bool(b)),
        DynModel::Int(i) => Ok(ValueModel::Number(NumberValue::Int(i))),
        DynModel::UInt(u) => Ok(ValueModel::Number(NumberValue::UInt(u))),
        DynModel::Float(bits) => if float_bits_finite(bits) {
            Ok(ValueModel::Number(NumberValue::FloatBits(bits)))
        } else {
            Err(ConvertError::NonFiniteNumber)
        },
        DynModel::Text(s) => Ok(ValueModel::Text(s)),
        DynModel::List(items) => match convert_elements(items) {
            Ok(vs) => Ok(ValueModel::Array(vs)),
            Err(e) => Err(e),
        },
        DynModel::Tuple(items) => match convert_elements(items) {
            Ok(vs) => Ok(ValueModel::Array(vs)),
            Err(e) => Err(e),
        },
        DynModel::Dict(pairs) => match convert_entries(Seq::empty(), pairs) {
            Ok(fs) => Ok(ValueModel::Object(fs)),
            Err(e) => Err(e),
        },
        DynModel::Opaque(_) => Err(ConvertError::UnsupportedType),
    }
}

/// Converts the elements of a sequence in order; the first failure wins.
pub open spec fn convert_elements(items: Seq<DynModel>) -> Result<Seq<ValueModel>, ConvertError>
    decreases items,
{
    if items.len() == 0 {
        Ok(Seq::empty())
    } else {
        match convert_model(items[0]) {
            Err(e) => Err(e),
            Ok(v) => match convert_elements(items.drop_first()) {
                Err(e) => Err(e),
                Ok(vs) => Ok(seq![v] + vs),
            },
        }
    }
}

/// Converts mapping entries in order, upserting each into the accumulated
/// fields: when two entries carry the same key the later one wins, keeping
/// the position of the first. The first conversion failure wins.
pub open spec fn convert_entries(acc: Seq<FieldModel>, pairs: Seq<DynFieldModel>)
    -> Result<Seq<FieldModel>, ConvertError>
    decreases pairs,
{
    if pairs.len() == 0 {
        Ok(acc)
    } else {
        match convert_model(pairs[0].1) {
            Err(e) => Err(e),
            Ok(v) => convert_entries(set_key(acc, pairs[0].0, v), pairs.drop_first()),
        }
    }
}

/// Converts the elements of a host sequence, in order.
fn convert_items(items: &Vec<DynValue>) -> (r: Result<Vec<StructuredValue>, ConvertError>)
    ensures
        match r {
            Ok(vs) => convert_elements(dyn_models(items@))
                == Ok::<Seq<ValueModel>, ConvertError>(value_models(vs@)),
            Err(e) => convert_elements(dyn_models(items@))
                == Err::<Seq<ValueModel>, ConvertError>(e),
        },
    decreases dyn_seq_size(dyn_models(items@)), 1nat,
{
    let ghost dm = dyn_models(items@);
    let mut out: Vec<StructuredValue> = Vec::new();
    let mut i: usize = 0;
    proof {
        lemma_dyn_models_index(items@);
        assert(dm.skip(0) =~= dm);
        match convert_elements(dm) {
            Ok(vs) => {
                assert(value_models(out@) + vs =~= vs);
            },
            Err(e) => {},
        }
    }
    while i < items.len()
        invariant
            i <= items@.len(),
            dm == dyn_models(items@),
            dm.len() == items@.len(),
            forall|l: int| 0 <= l < items@.len() ==> #[trigger] dm[l] == dyn_model(items@[l]),
            out@.len() == i as int,
            convert_elements(dm) == (match convert_elements(dm.skip(i as int)) {
                Ok(vs) => Ok::<Seq<ValueModel>, ConvertError>(value_models(out@) + vs),
                Err(e) => Err::<Seq<ValueModel>, ConvertError>(e),
            }),
        decreases items@.len() - i,
    {
        let ghost outv = out@;
        let ghost rest = dm.skip(i as int);
        proof {
            assert(rest[0] == dm[i as int]);
            assert(rest.drop_first() =~= dm.skip(i as int + 1));
            lemma_dyn_seq_size_index(dm, i as int);
        }
        let item = &items[i];
        match convert(item) {
            Ok(v) => {
                let ghost vm = v@;
                out.push(v);
                proof {
                    lemma_value_models_index(out@);
                    lemma_value_models_index(outv);
                    assert(value_models(out@) =~= value_models(outv).push(vm));
                    match convert_elements(dm.skip(i as int + 1)) {
                        Ok(vs) => {
                            assert(value_models(outv) + (seq![vm] + vs)
                                =~= value_models(out@) + vs);
                        },
                        Err(e) => {},
                    }
                }
            },
            Err(e) => {
                return Err(e);
            },
        }
        i += 1;
    }
    proof {
        assert(dm.skip(items@.len() as int) =~= Seq::<DynModel>::empty());
        match convert_elements(dm) {
            Ok(vs) => {
                assert(value_models(out@) + Seq::<ValueModel>::empty() =~= value_models(out@));
            },
            Err(e) => {},
        }
    }
    Ok(out)
}

/// Converts the entries of a host mapping, in order, later keys winning.
fn convert_dict(pairs: &Vec<(String, DynValue)>)
    -> (r: Result<Vec<(String, StructuredValue)>, ConvertError>)
    ensures
        match r {
            Ok(fs) => convert_entries(Seq::empty(), dyn_field_models(pairs@))
                == Ok::<Seq<FieldModel>, ConvertError>(field_models(fs@)),
            Err(e) => convert_entries(Seq::empty(), dyn_field_models(pairs@))
                == Err::<Seq<FieldModel>, ConvertError>(e),
        },
    decreases dyn_fields_size(dyn_field_models(pairs@)), 1nat,
{
    let ghost pm = dyn_field_models(pairs@);
    let mut out: Vec<(String, StructuredValue)> = Vec::new();
    let mut i: usize = 0;
    proof {
        lemma_dyn_field_models_index(pairs@);
        assert(pm.skip(0) =~= pm);
        assert(field_models(out@) =~= Seq::<FieldModel>::empty());
    }
    while i < pairs.len()
        invariant
            i <= pairs@.len(),
            pm == dyn_field_models(pairs@),
            pm.len() == pairs@.len(),
            forall|l: int| 0 <= l < pairs@.len()
                ==> #[trigger] pm[l] == (pairs@[l].0@, dyn_model(pairs@[l].1)),
            convert_entries(Seq::empty(), pm)
                == convert_entries(field_models(out@), pm.skip(i as int)),
        decreases pairs@.len() - i,
    {
        let ghost outv = out@;
        let ghost outm = field_models(out@);
        let ghost rest = pm.skip(i as int);
        proof {
            lemma_field_models_index(outv);
            assert(rest[0] == pm[i as int]);
            assert(rest.drop_first() =~= pm.skip(i as int + 1));
            lemma_dyn_fields_size_index(pm, i as int);
        }
        let key: &String = &pairs[i].0;
        let val: &DynValue = &pairs[i].1;
        match convert(val) {
            Ok(v) => {
                let ghost vm = v@;
                match find_key(&out, key) {
                    Some(j) => {
                        let pair = out.remove(j);
                        out.insert(j, (pair.0, v));
                        proof {
                            lemma_set_key_first(outm, key@, vm, j as int);
                            assert(out@ =~= outv.update(j as int, (pair.0, v)));
                            lemma_field_models_index(out@);
                            assert(field_models(out@) =~= set_key(outm, key@, vm));
                        }
                    },
                    None => {
                        out.push((key.clone(), v));
                        proof {
                            lemma_set_key_absent(outm, key@, vm);
                            lemma_field_models_index(out@);
                            assert(field_models(out@) =~= set_key(outm, key@, vm));
                        }
                    },
                }
            },
            Err(e) => {
                return Err(e);
            },
        }
        i += 1;
    }
    proof {
        assert(pm.skip(pairs@.len() as int) =~= Seq::<DynFieldModel>::empty());
    }
    Ok(out)
}

/// Converts a host dynamic value into a structured value.
///
/// Succeeds exactly on values built from the allow-listed kinds with only
/// finite numbers; fails with [`ConvertError::UnsupportedType`] on an opaque
/// value and with [`ConvertError::NonFiniteNumber`] on a NaN or infinity,
/// whichever the in-order walk meets first. Pure: no state is touched, and
/// an error carries no partial result.
pub fn convert(value: &DynValue) -> (r: Result<StructuredValue, ConvertError>)
    ensures
        match r {
            Ok(v) => convert_model(value@) == Ok::<ValueModel, ConvertError>(v@),
            Err(e) => convert_model(value@) == Err::<ValueModel, ConvertError>(e),
        },
    decreases dyn_size(value@), 0nat,
{
    match value {
        DynValue::Null => Ok(StructuredValue::Null),
        DynValue::Bool(b) => Ok(StructuredValue::Bool(*b)),
        DynValue::Int(i) => Ok(StructuredValue::Number(NumberValue::Int(*i))),
        DynValue::UInt(u) => Ok(StructuredValue::Number(NumberValue::UInt(*u))),
        DynValue::Float(bits) => {
            if is_finite_bits(*bits) {
                Ok(StructuredValue::Number(NumberValue::FloatBits(*bits)))
            } else {
                Err(ConvertError::NonFiniteNumber)
            }
        },
        DynValue::Text(s) => Ok(StructuredValue::Text(s.clone())),
        DynValue::List(items) => match convert_items(items) {
            Ok(vs) => Ok(StructuredValue::Array(vs)),
            Err(e) => Err(e),
        },
        DynValue::Tuple(items) => match convert_items(items) {
            Ok(vs) => Ok(StructuredValue::Array(vs)),
            Err(e) => Err(e),
        },
        DynValue::Dict(pairs) => match convert_dict(pairs) {
            Ok(fs) => Ok(StructuredValue::Object(fs)),
            Err(e) => Err(e),
        },
        DynValue::Opaque(_) => Err(ConvertError::UnsupportedType),
    }
}

/// The value holds a non-finite double somewhere in its nesting.
pub open spec fn has_nonfinite(d: DynModel) -> bool
    decreases d,
{
    match d {
        DynModel::Float(bits) => !float_bits_finite(bits),
        DynModel::List(items) => seq_has_nonfinite(items),
        DynModel::Tuple(items) => seq_has_nonfinite(items),
        DynModel::Dict(pairs) => fields_has_nonfinite(pairs),
        _ => false,
    }
}

/// Some element holds a non-finite double.
pub open spec fn seq_has_nonfinite(items: Seq<DynModel>) -> bool
    decreases items,
{
    if items.len() == 0 {
        false
    } else {
        has_nonfinite(items[0]) || seq_has_nonfinite(items.drop_first())
    }
}

/// Some entry value holds a non-finite double.
pub open spec fn fields_has_nonfinite(pairs: Seq<DynFieldModel>) -> bool
    decreases pairs,
{
    if pairs.len() == 0 {
        false
    } else {
        has_nonfinite(pairs[0].1) || fields_has_nonfinite(pairs.drop_first())
    }
}

/// The value holds something outside the allow-listed kinds somewhere.
pub open spec fn has_opaque(d: DynModel) -> bool
    decreases d,
{
    match d {
        DynModel::Opaque(_) => true,
        DynModel::List(items) => seq_has_opaque(items),
        DynModel::Tuple(items) => seq_has_opaque(items),
        DynModel::Dict(pairs) => fields_has_opaque(pairs),
        _ => false,
    }
}

/// Some element holds an opaque value.
pub open spec fn seq_has_opaque(items: Seq<DynModel>) -> bool
    decreases items,
{
    if items.len() == 0 {
        false
    } else {
        has_opaque(items[0]) || seq_has_opaque(items.drop_first())
    }
}

/// Some entry value holds an opaque value.
pub open spec fn fields_has_opaque(pairs: Seq<DynFieldModel>) -> bool
    decreases pairs,
{
    if pairs.len() == 0 {
        false
    } else {
        has_opaque(pairs[0].1) || fields_has_opaque(pairs.drop_first())
    }
}

/// When conversion succeeds and with which error it fails: it succeeds
/// exactly on values free of non-finite doubles and of opaque values; when
/// only one flaw kind is present, the error names it.
pub proof fn lemma_convert_outcome(d: DynModel)
    ensures
        (convert_model(d) is Ok) == (!has_nonfinite(d) && !has_opaque(d)),
        has_nonfinite(d) && !has_opaque(d)
            ==> convert_model(d) == Err::<ValueModel, ConvertError>(ConvertError::NonFiniteNumber),
        !has_nonfinite(d) && has_opaque(d)
            ==> convert_model(d) == Err::<ValueModel, ConvertError>(ConvertError::UnsupportedType),
    decreases d,
{
    match d {
        DynModel::List(items) => {
            lemma_convert_elements_outcome(items);
        },
        DynModel::Tuple(items) => {
            lemma_convert_elements_outcome(items);
        },
        DynModel::Dict(pairs) => {
            lemma_convert_entries_outcome(Seq::empty(), pairs);
        },
        _ => {},
    }
}

/// The outcome law for element sequences.
pub proof fn lemma_convert_elements_outcome(items: Seq<DynModel>)
    ensures
        (convert_elements(items) is Ok)
            == (!seq_has_nonfinite(items) && !seq_has_opaque(items)),
        seq_has_nonfinite(items) && !seq_has_opaque(items)
            ==> convert_elements(items)
                == Err::<Seq<ValueModel>, ConvertError>(ConvertError::NonFiniteNumber),
        !seq_has_nonfinite(items) && seq_has_opaque(items)
            ==> convert_elements(items)
                == Err::<Seq<ValueModel>, ConvertError>(ConvertError::UnsupportedType),
    decreases items,
{
    if items.len() > 0 {
        lemma_convert_outcome(items[0]);
        lemma_convert_elements_outcome(items.drop_first());
    }
}

/// The outcome law for entry sequences: the accumulator plays no part in
/// whether conversion succeeds.
pub proof fn lemma_convert_entries_outcome(acc: Seq<FieldModel>, pairs: Seq<DynFieldModel>)
    ensures
        (convert_entries(acc, pairs) is Ok)
            == (!fields_has_nonfinite(pairs) && !fields_has_opaque(pairs)),
        fields_has_nonfinite(pairs) && !fields_has_opaque(pairs)
            ==> convert_entries(acc, pairs)
                == Err::<Seq<FieldModel>, ConvertError>(ConvertError::NonFiniteNumber),
        !fields_has_nonfinite(pairs) && fields_has_opaque(pairs)
            ==> convert_entries(acc, pairs)
                == Err::<Seq<FieldModel>, ConvertError>(ConvertError::UnsupportedType),
    decreases pairs,
{
    if pairs.len() > 0 {
        lemma_convert_outcome(pairs[0].1);
        match convert_model(pairs[0].1) {
            Ok(v) => {
                lemma_convert_entries_outcome(set_key(acc, pairs[0].0, v), pairs.drop_first());
            },
            Err(e) => {},
        }
    }
}

/// A dynamic value holding a non-finite double anywhere is rejected; when
/// it holds no opaque value, the error is `NonFiniteNumber`. (When it also
/// holds an opaque value, the in-order walk may meet the opaque value first
/// and report `UnsupportedType` instead.) Conversion is pure, so a rejected
/// call mutates nothing.
pub proof fn lemma_nonfinite_rejected(d: DynModel)
    requires
        has_nonfinite(d),
    ensures
        convert_model(d) is Err,
        !has_opaque(d) ==> convert_model(d)
            == Err::<ValueModel, ConvertError>(ConvertError::NonFiniteNumber),
{
    lemma_convert_outcome(d);
}

/// A host boolean converts to `Bool`, never to `Number`: boolean/integer
/// aliasing cannot leak through the conversion.
pub proof fn lemma_bool_converts_to_bool(b: bool)
    ensures
        convert_model(DynModel::Bool(b)) == Ok::<ValueModel, ConvertError>(ValueModel::Bool(b)),
        !(convert_model(DynModel::Bool(b))->Ok_0 is Number),
{
}

/// Every successful conversion yields a well-formed value.
pub proof fn lemma_convert_wf(d: DynModel)
    ensures
        convert_model(d) matches Ok(v) ==> v.wf(),
    decreases d,
{
    match d {
        DynModel::List(items) => {
            lemma_convert_elements_wf(items);
        },
        DynModel::Tuple(items) => {
            lemma_convert_elements_wf(items);
        },
        DynModel::Dict(pairs) => {
            assert(fields_wf(Seq::<FieldModel>::empty()));
            lemma_convert_entries_wf(Seq::empty(), pairs);
        },
        _ => {},
    }
}

/// Well-formedness of converted element sequences.
pub proof fn lemma_convert_elements_wf(items: Seq<DynModel>)
    ensures
        convert_elements(items) matches Ok(vs) ==> values_wf(vs),
    decreases items,
{
    if items.len() > 0 {
        lemma_convert_wf(items[0]);
        lemma_convert_elements_wf(items.drop_first());
        match convert_model(items[0]) {
            Ok(v) => {
                match convert_elements(items.drop_first()) {
                    Ok(vs) => {
                        assert((seq![v] + vs).drop_first() =~= vs);
                    },
                    Err(e) => {},
                }
            },
            Err(e) => {},
        }
    }
}

/// Well-formedness of converted entry sequences.
pub proof fn lemma_convert_entries_wf(acc: Seq<FieldModel>, pairs: Seq<DynFieldModel>)
    requires
        fields_wf(acc),
    ensures
        convert_entries(acc, pairs) matches Ok(fs) ==> fields_wf(fs),
    decreases pairs,
{
    if pairs.len() > 0 {
        lemma_convert_wf(pairs[0].1);
        match convert_model(pairs[0].1) {
            Ok(v) => {
                crate::value::lemma_set_key_wf(acc, pairs[0].0, v);
                lemma_convert_entries_wf(set_key(acc, pairs[0].0, v), pairs.drop_first());
            },
            Err(e) => {},
        }
    }
}

/// The embedding of a structured value back into the dynamic value model:
/// arrays become lists, objects become mappings, numbers keep their kind.
pub open spec fn embedded(v: ValueModel) -> DynModel
    decreases v,
{
    match v {
        ValueModel::Null => DynModel::Null,
        ValueModel::Bool(b) => DynModel::Bool(b),
        ValueModel::Number(NumberValue::Int(i)) => DynModel::Int(i),
        ValueModel::Number(NumberValue::UInt(u)) => DynModel::UInt(u),
        ValueModel::Number(NumberValue::FloatBits(bits)) => DynModel::Float(bits),
        ValueModel::Text(s) => DynModel::Text(s),
        ValueModel::Array(items) => DynModel::List(embedded_elements(items)),
        ValueModel::Object(fields) => DynModel::Dict(embedded_fields(fields)),
    }
}

/// The embedding of a sequence of values, elementwise.
pub open spec fn embedded_elements(items: Seq<ValueModel>) -> Seq<DynModel>
    decreases items,
{
    if items.len() == 0 {
        Seq::empty()
    } else {
        seq![embedded(items[0])] + embedded_elements(items.drop_first())
    }
}

/// The embedding of a field sequence, elementwise.
pub open spec fn embedded_fields(fields: Seq<FieldModel>) -> Seq<DynFieldModel>
    decreases fields,
{
    if fields.len() == 0 {
        Seq::empty()
    } else {
        seq![(fields[0].0, embedded(fields[0].1))] + embedded_fields(fields.drop_first())
    }
}

/// Conversion is the identity on embedded well-formed structured values.
pub proof fn lemma_convert_idempotent(v: ValueModel)
    requires
        v.wf(),
    ensures
        convert_model(embedded(v)) == Ok::<ValueModel, ConvertError>(v),
    decreases v,
{
    match v {
        ValueModel::Array(items) => {
            crate::value::lemma_values_wf_iff(items);
            lemma_embedded_elements(items);
        },
        ValueModel::Object(fields) => {
            assert(Seq::<FieldModel>::empty() + fields =~= fields);
            lemma_embedded_entries(Seq::empty(), fields);
        },
        _ => {},
    }
}

/// Converting embedded elements gives them back unchanged.
pub proof fn lemma_embedded_elements(items: Seq<ValueModel>)
    requires
        values_wf(items),
    ensures
        convert_elements(embedded_elements(items)) == Ok::<Seq<ValueModel>, ConvertError>(items),
    decreases items,
{
    if items.len() == 0 {
        assert(items =~= Seq::<ValueModel>::empty());
    } else {
        let em = embedded_elements(items);
        assert(em[0] == embedded(items[0]));
        assert(em.drop_first() =~= embedded_elements(items.drop_first()));
        lemma_convert_idempotent(items[0]);
        lemma_embedded_elements(items.drop_first());
        assert(seq![items[0]] + items.drop_first() =~= items);
    }
}

/// Converting embedded entries appends them to the accumulator unchanged,
/// as long as no key repeats across the accumulator and the entries.
pub proof fn lemma_embedded_entries(acc: Seq<FieldModel>, fields: Seq<FieldModel>)
    requires
        unique_keys(acc + fields),
        field_values_wf(fields),
    ensures
        convert_entries(acc, embedded_fields(fields))
            == Ok::<Seq<FieldModel>, ConvertError>(acc + fields),
    decreases fields,
{
    if fields.len() == 0 {
        assert(acc + fields =~= acc);
        assert(embedded_fields(fields) =~= Seq::<DynFieldModel>::empty());
    } else {
        let whole = acc + fields;
        let k0 = fields[0].0;
        let v0 = fields[0].1;
        let em = embedded_fields(fields);
        assert(em[0] == (k0, embedded(v0)));
        assert(em.drop_first() =~= embedded_fields(fields.drop_first()));
        lemma_convert_idempotent(v0);
        // `k0` is absent from the accumulator
        assert(!has_key(acc, k0)) by {
            if has_key(acc, k0) {
                let i = choose|i: int| 0 <= i < acc.len() && acc[i].0 == k0;
                assert(whole[i] == acc[i]);
                assert(whole[acc.len() as int] == fields[0]);
            }
        }
        lemma_set_key_absent(acc, k0, v0);
        let acc2 = acc.push((k0, v0));
        assert(set_key(acc, k0, v0) =~= acc2);
        assert(acc2 + fields.drop_first() =~= acc + fields);
        lemma_embedded_entries(acc2, fields.drop_first());
    }
}

/// A successful conversion is stable: feeding the result back through the
/// embedding and converting again yields the very same value.
pub proof fn lemma_convert_stable(d: DynModel)
    ensures
        convert_model(d) matches Ok(v) ==> convert_model(embedded(v))
            == Ok::<ValueModel, ConvertError>(v),
{
    lemma_convert_wf(d);
    match convert_model(d) {
        Ok(v) => {
            lemma_convert_idempotent(v);
        },
        Err(e) => {},
    }
}

} // verus!
