//! The schema store: one base schema plus an ordered list of pending merges.
//!
//! A schema contribution arrives in one of three forms: already structured,
//! as serialized text, or as compact binary. The first contribution becomes
//! the base. A later structured contribution is folded into a structured
//! base at once — but only while nothing is queued, since queued entries
//! must be applied before it. Everything else is appended to the queue and
//! applied at render time, in the exact order it was recorded: serialized
//! and binary forms can only be decoded by the engine, so their merging is
//! deferred to it.

use vstd::prelude::*;

use crate::value::merge_values;
use crate::value::merged;
use crate::value::value_model;
use crate::value::StructuredValue;
use crate::value::ValueModel;

verus! {

/// One schema contribution, not yet guaranteed structured.
#[derive(Debug)]
pub enum SchemaInput {
    /// No contribution.
    Unset,
    /// A structured value, ready to merge.
    Structured(StructuredValue),
    /// Serialized schema text, decoded by the engine at render time.
    SerializedText(String),
    /// A compact binary schema, decoded by the engine at render time.
    CompactBinary(Vec<u8>),
}

/// The mathematical model of a [`SchemaInput`].
pub enum SchemaInputModel {
    Unset,
    Structured(ValueModel),
    SerializedText(Seq<char>),
    CompactBinary(Seq<u8>),
}

impl View for SchemaInput {
    type V = SchemaInputModel;

    open spec fn view(&self) -> SchemaInputModel {
        match self {
            SchemaInput::Unset => SchemaInputModel::Unset,
            SchemaInput::Structured(v) => SchemaInputModel::Structured(value_model(*v)),
            SchemaInput::SerializedText(s) => SchemaInputModel::SerializedText(s@),
            SchemaInput::CompactBinary(b) => SchemaInputModel::CompactBinary(b@),
        }
    }
}

impl SchemaInputModel {
    /// A schema input is well formed when a structured payload is.
    pub open spec fn wf(self) -> bool {
        match self {
            SchemaInputModel::Structured(v) => v.wf(),
            _ => true,
        }
    }
}

impl Clone for SchemaInput {
    /// A structural copy: the clone has the same model as the original.
    fn clone(&self) -> (r: Self)
        ensures
            r@ == self@,
    {
        match self {
            SchemaInput::Unset => SchemaInput::Unset,
            SchemaInput::Structured(v) => SchemaInput::Structured(v.clone()),
            SchemaInput::SerializedText(s) => SchemaInput::SerializedText(s.clone()),
            SchemaInput::CompactBinary(b) => SchemaInput::CompactBinary(copy_bytes(b)),
        }
    }
}

/// A verified byte-for-byte copy.
fn copy_bytes(bytes: &Vec<u8>) -> (r: Vec<u8>)
    ensures
        r@ == bytes@,
{
    let mut out: Vec<u8> = Vec::new();
    let mut i: usize = 0;
    while i < bytes.len()
        invariant
            i <= bytes@.len(),
            out@ =~= bytes@.take(i as int),
        decreases bytes@.len() - i,
    {
        out.push(bytes[i]);
        i += 1;
    }
    proof {
        assert(bytes@.take(bytes@.len() as int) =~= bytes@);
    }
    out
}

/// The models of a sequence of schema inputs, elementwise.
pub open spec fn input_models(inputs: Seq<SchemaInput>) -> Seq<SchemaInputModel>
    decreases inputs,
{
    if inputs.len() == 0 {
        Seq::empty()
    } else {
        seq![inputs[0]@] + input_models(inputs.drop_first())
    }
}

/// `input_models` maps elementwise.
pub proof fn lemma_input_models_index(inputs: Seq<SchemaInput>)
    ensures
        input_models(inputs).len() == inputs.len(),
        forall|i: int| 0 <= i < inputs.len()
            ==> #[trigger] input_models(inputs)[i] == inputs[i]@,
    decreases inputs.len(),
{
    if inputs.len() > 0 {
        lemma_input_models_index(inputs.drop_first());
    }
}

/// The schema store: the base contribution and the queued merges.
pub struct SchemaStore {
    /// The base schema, set by at most one of construction or first merge.
    pub base: SchemaInput,
    /// Pending merges, applied at render time in recorded order.
    /// No entry is ever `Unset`.
    pub merges: Vec<SchemaInput>,
}

/// The mathematical model of a [`SchemaStore`].
pub struct StoreModel {
    pub base: SchemaInputModel,
    pub merges: Seq<SchemaInputModel>,
}

impl View for SchemaStore {
    type V = StoreModel;

    open spec fn view(&self) -> StoreModel {
        StoreModel { base: self.base@, merges: input_models(self.merges@) }
    }
}

impl StoreModel {
    /// Well-formedness: the base and every queued entry are well formed,
    /// and nothing queued is `Unset`.
    pub open spec fn wf(self) -> bool {
        &&& self.base.wf()
        &&& forall|i: int| 0 <= i < self.merges.len()
            ==> (#[trigger] self.merges[i]).wf() && !(self.merges[i] is Unset)
    }

    /// The store with nothing in it.
    pub open spec fn empty() -> StoreModel {
        StoreModel { base: SchemaInputModel::Unset, merges: Seq::empty() }
    }
}

/// How the store changes when a structured value is handed in: it becomes
/// the base when there is none, folds into a structured base while nothing
/// is queued, and queues otherwise.
pub open spec fn store_after_structured(s: StoreModel, v: ValueModel) -> StoreModel {
    if s.base is Unset {
        StoreModel { base: SchemaInputModel::Structured(v), merges: s.merges }
    } else if s.base is Structured && s.merges.len() == 0 {
        StoreModel {
            base: SchemaInputModel::Structured(merged(s.base->Structured_0, v)),
            merges: s.merges,
        }
    } else {
        StoreModel { base: s.base, merges: s.merges.push(SchemaInputModel::Structured(v)) }
    }
}

/// How the store changes when serialized text is handed in: it becomes the
/// base when there is none and queues otherwise — only the engine can
/// decode it, so it is never folded here.
pub open spec fn store_after_text(s: StoreModel, text: Seq<char>) -> StoreModel {
    if s.base is Unset {
        StoreModel { base: SchemaInputModel::SerializedText(text), merges: s.merges }
    } else {
        StoreModel { base: s.base, merges: s.merges.push(SchemaInputModel::SerializedText(text)) }
    }
}

/// How the store changes when compact binary is handed in: symmetric to
/// serialized text.
pub open spec fn store_after_binary(s: StoreModel, bytes: Seq<u8>) -> StoreModel {
    if s.base is Unset {
        StoreModel { base: SchemaInputModel::CompactBinary(bytes), merges: s.merges }
    } else {
        StoreModel { base: s.base, merges: s.merges.push(SchemaInputModel::CompactBinary(bytes)) }
    }
}

impl SchemaStore {
    /// A store with nothing in it.
    pub fn new_empty() -> (r: SchemaStore)
        ensures
            r@ == StoreModel::empty(),
            r@.wf(),
    {
        let r = SchemaStore { base: SchemaInput::Unset, merges: Vec::new() };
        proof {
            assert(r@.merges =~= Seq::<SchemaInputModel>::empty());
            assert(r@ == StoreModel::empty());
        }
        r
    }

    /// Hands a structured value to the store.
    pub fn add_structured(&mut self, v: StructuredValue)
        requires
            old(self)@.wf(),
            v@.wf(),
        ensures
            final(self)@ == store_after_structured(old(self)@, v@),
            final(self)@.wf(),
    {
        proof {
            lemma_input_models_index(self.merges@);
        }
        let is_unset = matches!(self.base, SchemaInput::Unset);
        if is_unset {
            self.base = SchemaInput::Structured(v);
        } else {
            let fold_now = matches!(self.base, SchemaInput::Structured(_)) && self.merges.len() == 0;
            if fold_now {
                let ghost vm = v@;
                match &self.base {
                    SchemaInput::Structured(b) => {
                        let target = b.clone();
                        let merged_v = merge_values(target, &v);
                        proof {
                            crate::value::lemma_merged_wf(old(self)@.base->Structured_0, vm);
                        }
                        self.base = SchemaInput::Structured(merged_v);
                    },
                    _ => {
                        proof {
                            assert(false);
                        }
                    },
                }
            } else {
                self.merges.push(SchemaInput::Structured(v));
                proof {
                    lemma_input_models_index(self.merges@);
                    assert(input_models(self.merges@)
                        =~= old(self)@.merges.push(SchemaInputModel::Structured(v@)));
                }
            }
        }
    }

    /// Hands serialized schema text to the store. The text is taken as is;
    /// validating it is the caller's concern, decoding it the engine's.
    pub fn add_serialized_text(&mut self, text: String)
        requires
            old(self)@.wf(),
        ensures
            final(self)@ == store_after_text(old(self)@, text@),
            final(self)@.wf(),
    {
        proof {
            lemma_input_models_index(self.merges@);
        }
        let is_unset = matches!(self.base, SchemaInput::Unset);
        if is_unset {
            self.base = SchemaInput::SerializedText(text);
        } else {
            let ghost tm = text@;
            self.merges.push(SchemaInput::SerializedText(text));
            proof {
                lemma_input_models_index(self.merges@);
                assert(input_models(self.merges@)
                    =~= old(self)@.merges.push(SchemaInputModel::SerializedText(tm)));
            }
        }
    }

    /// Hands a compact binary schema to the store.
    pub fn add_compact_binary(&mut self, bytes: Vec<u8>)
        requires
            old(self)@.wf(),
        ensures
            final(self)@ == store_after_binary(old(self)@, bytes@),
            final(self)@.wf(),
    {
        proof {
            lemma_input_models_index(self.merges@);
        }
        let is_unset = matches!(self.base, SchemaInput::Unset);
        if is_unset {
            self.base = SchemaInput::CompactBinary(bytes);
        } else {
            let ghost bm = bytes@;
            self.merges.push(SchemaInput::CompactBinary(bytes));
            proof {
                lemma_input_models_index(self.merges@);
                assert(input_models(self.merges@)
                    =~= old(self)@.merges.push(SchemaInputModel::CompactBinary(bm)));
            }
        }
    }

    /// Moves the whole contents out, leaving the store empty: the transfer
    /// behind a consuming render.
    pub fn take(&mut self) -> (r: (SchemaInput, Vec<SchemaInput>))
        ensures
            r.0@ == old(self)@.base,
            input_models(r.1@) == old(self)@.merges,
            final(self)@ == StoreModel::empty(),
    {
        let mut base = SchemaInput::Unset;
        let mut merges: Vec<SchemaInput> = Vec::new();
        core::mem::swap(&mut base, &mut self.base);
        core::mem::swap(&mut merges, &mut self.merges);
        proof {
            assert(input_models(Seq::<SchemaInput>::empty()) =~= Seq::<SchemaInputModel>::empty());
            assert(final(self)@ == StoreModel::empty());
        }
        (base, merges)
    }

    /// Copies the whole contents, leaving the store as it was: the snapshot
    /// behind a reusable render.
    pub fn snapshot(&self) -> (r: (SchemaInput, Vec<SchemaInput>))
        ensures
            r.0@ == self@.base,
            input_models(r.1@) == self@.merges,
    {
        let base = self.base.clone();
        let mut merges: Vec<SchemaInput> = Vec::new();
        let mut i: usize = 0;
        proof {
            lemma_input_models_index(self.merges@);
        }
        while i < self.merges.len()
            invariant
                i <= self.merges@.len(),
                merges@.len() == i as int,
                forall|l: int| 0 <= l < self.merges@.len()
                    ==> #[trigger] input_models(self.merges@)[l] == self.merges@[l]@,
                input_models(self.merges@).len() == self.merges@.len(),
                forall|l: int| 0 <= l < i ==> (#[trigger] merges@[l])@ == self.merges@[l]@,
            decreases self.merges@.len() - i,
        {
            let entry = self.merges[i].clone();
            merges.push(entry);
            i += 1;
        }
        proof {
            lemma_input_models_index(merges@);
            assert(input_models(merges@) =~= input_models(self.merges@));
        }
        (base, merges)
    }
}

} // verus!
