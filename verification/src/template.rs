//! The template object: source selection, schema composition, render
//! bookkeeping.
//!
//! The engine that parses templates, loads files and produces output text
//! is an external collaborator. The template object prepares everything a
//! render needs — the source, the base schema, the queued merges, the mode
//! — as a [`RenderPlan`], and records the outcome the host observed after
//! driving the engine. A failed attempt is recorded through
//! [`NeutralTemplate::fail_render`]; a completed one through
//! [`NeutralTemplate::finish_render`].

use vstd::prelude::*;

use crate::convert::convert;
use crate::convert::convert_model;
use crate::convert::ConvertError;
use crate::convert::DynModel;
use crate::convert::DynValue;
use crate::decode::json_is_valid;
use crate::decode::json_text_valid;
use crate::store::input_models;
use crate::store::store_after_binary;
use crate::store::store_after_structured;
use crate::store::store_after_text;
use crate::store::SchemaInput;
use crate::store::SchemaInputModel;
use crate::store::SchemaStore;
use crate::store::StoreModel;

verus! {

/// Where the template's source comes from: a file on disk, loaded by the
/// engine at render time, or inline source text. Exactly one is active;
/// setting one discards the other.
#[derive(Debug)]
pub enum TemplateSource {
    FilePath(String),
    InlineSource(String),
}

/// The mathematical model of a [`TemplateSource`].
pub enum SourceModel {
    FilePath(Seq<char>),
    InlineSource(Seq<char>),
}

impl View for TemplateSource {
    type V = SourceModel;

    open spec fn view(&self) -> SourceModel {
        match self {
            TemplateSource::FilePath(p) => SourceModel::FilePath(p@),
            TemplateSource::InlineSource(s) => SourceModel::InlineSource(s@),
        }
    }
}

impl Clone for TemplateSource {
    /// A structural copy: the clone has the same model as the original.
    fn clone(&self) -> (r: Self)
        ensures
            r@ == self@,
    {
        match self {
            TemplateSource::FilePath(p) => TemplateSource::FilePath(p.clone()),
            TemplateSource::InlineSource(s) => TemplateSource::InlineSource(s.clone()),
        }
    }
}

/// The last observed render outcome: a status code, a status text, an
/// additional parameter, and an error flag. All four are written together,
/// once per render attempt.
#[derive(Debug)]
pub struct RenderStatus {
    pub code: String,
    pub text: String,
    pub param: String,
    pub failed: bool,
}

/// The mathematical model of a [`RenderStatus`].
pub struct StatusModel {
    pub code: Seq<char>,
    pub text: Seq<char>,
    pub param: Seq<char>,
    pub failed: bool,
}

impl View for RenderStatus {
    type V = StatusModel;

    open spec fn view(&self) -> StatusModel {
        StatusModel { code: self.code@, text: self.text@, param: self.param@, failed: self.failed }
    }
}

impl StatusModel {
    /// The reset state every render attempt starts from: all fields empty,
    /// no error.
    pub open spec fn reset_state() -> StatusModel {
        StatusModel {
            code: Seq::empty(),
            text: Seq::empty(),
            param: Seq::empty(),
            failed: false,
        }
    }

    /// The state recorded for a failed attempt: code and text empty, the
    /// parameter carrying the failure description, the error flag raised.
    pub open spec fn failure_state(param: Seq<char>) -> StatusModel {
        StatusModel { code: Seq::empty(), text: Seq::empty(), param: param, failed: true }
    }
}

/// Everything one render needs, in the order the engine must see it:
/// resolve the source, install the base schema, apply the queued merges
/// first to last, then render — duplicating the composed schema in the
/// reusable mode, taking ownership of it in the consuming mode.
#[derive(Debug)]
pub struct RenderPlan {
    pub source: TemplateSource,
    pub base: SchemaInput,
    pub merges: Vec<SchemaInput>,
    pub consuming: bool,
}

/// Why a configuration call failed.
#[derive(Clone, Copy, PartialEq, Eq, Structural, Debug)]
pub enum TemplateError {
    /// More than one schema input was given at construction.
    MultipleSchemaInputs,
    /// A serialized schema text does not parse.
    InvalidSerializedSchema,
    /// A dynamic value contains something outside the allow-listed kinds.
    UnsupportedType,
    /// A dynamic value contains a NaN or an infinity.
    NonFiniteNumber,
}

/// The template error standing for a conversion error.
pub open spec fn template_error_of(e: ConvertError) -> TemplateError {
    match e {
        ConvertError::UnsupportedType => TemplateError::UnsupportedType,
        ConvertError::NonFiniteNumber => TemplateError::NonFiniteNumber,
    }
}

/// Maps a conversion error onto the template error vocabulary.
fn error_from_convert(e: ConvertError) -> (r: TemplateError)
    ensures
        r == template_error_of(e),
{
    match e {
        ConvertError::UnsupportedType => TemplateError::UnsupportedType,
        ConvertError::NonFiniteNumber => TemplateError::NonFiniteNumber,
    }
}

/// The template object.
pub struct NeutralTemplate {
    source: TemplateSource,
    store: SchemaStore,
    status: RenderStatus,
}

/// The mathematical model of a [`NeutralTemplate`].
pub struct TemplateModel {
    pub source: SourceModel,
    pub store: StoreModel,
    pub status: StatusModel,
}

impl View for NeutralTemplate {
    type V = TemplateModel;

    closed spec fn view(&self) -> TemplateModel {
        TemplateModel { source: self.source@, store: self.store@, status: self.status@ }
    }
}

impl TemplateModel {
    /// Well-formedness: the schema store is well formed.
    pub open spec fn wf(self) -> bool {
        self.store.wf()
    }
}

/// The view of an optional text argument.
pub open spec fn opt_text(o: Option<&str>) -> Option<Seq<char>> {
    match o {
        Some(s) => Some(s@),
        None => None,
    }
}

/// The view of an optional byte-slice argument.
pub open spec fn opt_bytes(o: Option<&[u8]>) -> Option<Seq<u8>> {
    match o {
        Some(b) => Some(b@),
        None => None,
    }
}

/// The view of an optional dynamic-value argument.
pub open spec fn opt_dyn(o: Option<&DynValue>) -> Option<DynModel> {
    match o {
        Some(d) => Some(d@),
        None => None,
    }
}

/// The source selected at construction: a non-empty path selects the file,
/// anything else starts with empty inline source.
pub open spec fn source_of(path: Option<Seq<char>>) -> SourceModel {
    match path {
        Some(p) => if p.len() > 0 {
            SourceModel::FilePath(p)
        } else {
            SourceModel::InlineSource(Seq::empty())
        },
        None => SourceModel::InlineSource(Seq::empty()),
    }
}

/// What constructing a template yields, for every combination of inputs:
/// more than one non-empty schema input is refused; a malformed serialized
/// schema is refused; a dynamic value is converted, its errors propagated;
/// otherwise the one given input becomes the base schema, the merge queue
/// starts empty, and the status starts reset.
pub open spec fn new_outcome(
    path: Option<Seq<char>>,
    text: Option<Seq<char>>,
    binary: Option<Seq<u8>>,
    obj: Option<DynModel>,
) -> Result<TemplateModel, TemplateError> {
    let has_text = text matches Some(s) && s.len() > 0;
    let has_bin = binary matches Some(b) && b.len() > 0;
    let has_obj = obj is Some;
    let given = (if has_text { 1int } else { 0int })
        + (if has_bin { 1int } else { 0int })
        + (if has_obj { 1int } else { 0int });
    if given > 1 {
        Err(TemplateError::MultipleSchemaInputs)
    } else if has_text && !json_text_valid(text->0) {
        Err(TemplateError::InvalidSerializedSchema)
    } else if has_obj && convert_model(obj->0) is Err {
        Err(template_error_of(convert_model(obj->0)->Err_0))
    } else {
        Ok(TemplateModel {
            source: source_of(path),
            store: StoreModel {
                base: if has_text {
                    SchemaInputModel::SerializedText(text->0)
                } else if has_bin {
                    SchemaInputModel::CompactBinary(binary->0)
                } else if has_obj {
                    SchemaInputModel::Structured(convert_model(obj->0)->Ok_0)
                } else {
                    SchemaInputModel::Unset
                },
                merges: Seq::empty(),
            },
            status: StatusModel::reset_state(),
        })
    }
}

/// A verified byte-for-byte copy of a slice.
fn slice_to_vec(bytes: &[u8]) -> (r: Vec<u8>)
    ensures
        r@ == bytes@,
{
    let mut out: Vec<u8> = Vec::new();
    let mut i: usize = 0;
    while i < bytes.len()
        invariant
            i <= bytes@.len(),
            out@ =~= bytes@.take(i as int),
        decreases bytes@.len() - i,
    {
        out.push(bytes[i]);
        i += 1;
    }
    proof {
        assert(bytes@.take(bytes@.len() as int) =~= bytes@);
    }
    out
}

impl NeutralTemplate {
    /// Creates a template, optionally with a file path and at most one
    /// schema input: serialized text, compact binary, or a dynamic value.
    pub fn new(
        path: Option<&str>,
        schema_str: Option<&str>,
        schema_msgpack: Option<&[u8]>,
        schema_obj: Option<&DynValue>,
    ) -> (r: Result<NeutralTemplate, TemplateError>)
        ensures
            match r {
                Ok(t) => {
                    &&& new_outcome(opt_text(path), opt_text(schema_str),
                            opt_bytes(schema_msgpack), opt_dyn(schema_obj))
                        == Ok::<TemplateModel, TemplateError>(t@)
                    &&& t@.wf()
                },
                Err(e) => new_outcome(opt_text(path), opt_text(schema_str),
                        opt_bytes(schema_msgpack), opt_dyn(schema_obj))
                    == Err::<TemplateModel, TemplateError>(e),
            },
    {
        let has_str = match schema_str {
            Some(s) => !s.is_empty(),
            None => false,
        };
        let has_msgpack = match schema_msgpack {
            Some(b) => b.len() > 0,
            None => false,
        };
        let has_obj = matches!(schema_obj, Some(_));

        let given: u8 = (if has_str { 1 } else { 0 })
            + (if has_msgpack { 1 } else { 0 })
            + (if has_obj { 1 } else { 0 });
        if given > 1 {
            return Err(TemplateError::MultipleSchemaInputs);
        }

        let source = match path {
            Some(p) => {
                if !p.is_empty() {
                    TemplateSource::FilePath(p.to_owned())
                } else {
                    TemplateSource::InlineSource(String::new())
                }
            },
            None => TemplateSource::InlineSource(String::new()),
        };

        let mut store = SchemaStore::new_empty();
        if has_str {
            match schema_str {
                Some(s) => {
                    if !json_is_valid(s) {
                        return Err(TemplateError::InvalidSerializedSchema);
                    }
                    store.add_serialized_text(s.to_owned());
                },
                None => {},
            }
        } else if has_msgpack {
            match schema_msgpack {
                Some(b) => {
                    store.add_compact_binary(slice_to_vec(b));
                },
                None => {},
            }
        } else if has_obj {
            match schema_obj {
                Some(d) => {
                    match convert(d) {
                        Ok(v) => {
                            proof {
                                crate::convert::lemma_convert_wf(d@);
                            }
                            store.add_structured(v);
                        },
                        Err(e) => {
                            return Err(error_from_convert(e));
                        },
                    }
                },
                None => {},
            }
        }

        Ok(NeutralTemplate {
            source,
            store,
            status: RenderStatus {
                code: String::new(),
                text: String::new(),
                param: String::new(),
                failed: false,
            },
        })
    }

    /// Points the template at a file, discarding any inline source.
    pub fn set_path(&mut self, path: String)
        ensures
            final(self)@ == (TemplateModel { source: SourceModel::FilePath(path@), ..old(self)@ }),
    {
        self.source = TemplateSource::FilePath(path);
    }

    /// Installs inline source text, discarding any file path.
    pub fn set_source(&mut self, source: String)
        ensures
            final(self)@ == (TemplateModel {
                source: SourceModel::InlineSource(source@),
                ..old(self)@
            }),
    {
        self.source = TemplateSource::InlineSource(source);
    }

    /// Merges a serialized schema: malformed text is refused on the spot
    /// and changes nothing; valid text becomes the base schema or joins
    /// the queue, to be decoded and merged by the engine at render time.
    pub fn merge_schema(&mut self, schema_str: &str) -> (r: Result<(), TemplateError>)
        requires
            old(self)@.wf(),
        ensures
            !json_text_valid(schema_str@) ==> {
                &&& r == Err::<(), TemplateError>(TemplateError::InvalidSerializedSchema)
                &&& final(self)@ == old(self)@
            },
            json_text_valid(schema_str@) ==> {
                &&& r == Ok::<(), TemplateError>(())
                &&& final(self)@ == (TemplateModel {
                    store: store_after_text(old(self)@.store, schema_str@),
                    ..old(self)@
                })
            },
            final(self)@.wf(),
    {
        if !json_is_valid(schema_str) {
            return Err(TemplateError::InvalidSerializedSchema);
        }
        self.store.add_serialized_text(schema_str.to_owned());
        Ok(())
    }

    /// Merges a compact binary schema: it becomes the base schema or joins
    /// the queue, to be decoded and merged by the engine at render time.
    pub fn merge_schema_msgpack(&mut self, schema_msgpack: &[u8])
        requires
            old(self)@.wf(),
        ensures
            final(self)@ == (TemplateModel {
                store: store_after_binary(old(self)@.store, schema_msgpack@),
                ..old(self)@
            }),
            final(self)@.wf(),
    {
        self.store.add_compact_binary(slice_to_vec(schema_msgpack));
    }

    /// Merges a dynamic value: it is converted first, conversion errors
    /// propagate and change nothing; the converted value becomes the base
    /// schema, folds into a structured base, or joins the queue.
    pub fn merge_schema_obj(&mut self, schema_obj: &DynValue) -> (r: Result<(), TemplateError>)
        requires
            old(self)@.wf(),
        ensures
            convert_model(schema_obj@) matches Err(e) ==> {
                &&& r == Err::<(), TemplateError>(template_error_of(e))
                &&& final(self)@ == old(self)@
            },
            convert_model(schema_obj@) matches Ok(v) ==> {
                &&& r == Ok::<(), TemplateError>(())
                &&& final(self)@ == (TemplateModel {
                    store: store_after_structured(old(self)@.store, v),
                    ..old(self)@
                })
            },
            final(self)@.wf(),
    {
        match convert(schema_obj) {
            Ok(v) => {
                proof {
                    crate::convert::lemma_convert_wf(schema_obj@);
                }
                self.store.add_structured(v);
                Ok(())
            },
            Err(e) => Err(error_from_convert(e)),
        }
    }

    /// Opens a render attempt: resets the status record and hands out the
    /// plan the host must drive through the engine. In the reusable mode
    /// the composed schema is duplicated and the store keeps it; in the
    /// consuming mode the schema is transferred into the plan and the
    /// store is left empty, so a later render starts from no schema.
    pub fn prepare_render(&mut self, consuming: bool) -> (p: RenderPlan)
        requires
            old(self)@.wf(),
        ensures
            p.source@ == old(self)@.source,
            p.base@ == old(self)@.store.base,
            input_models(p.merges@) == old(self)@.store.merges,
            p.consuming == consuming,
            final(self)@.source == old(self)@.source,
            final(self)@.status == StatusModel::reset_state(),
            final(self)@.store == if consuming {
                StoreModel::empty()
            } else {
                old(self)@.store
            },
            final(self)@.wf(),
    {
        let source = self.source.clone();
        let (base, merges) = if consuming {
            self.store.take()
        } else {
            self.store.snapshot()
        };
        self.status = RenderStatus {
            code: String::new(),
            text: String::new(),
            param: String::new(),
            failed: false,
        };
        RenderPlan { source, base, merges, consuming }
    }

    /// Records the outcome the host observed from the engine. Every field
    /// of the status record is overwritten; nothing else changes.
    pub fn finish_render(&mut self, outcome: RenderStatus)
        ensures
            final(self)@ == (TemplateModel { status: outcome@, ..old(self)@ }),
    {
        self.status = outcome;
    }

    /// Records a failed render attempt: the status code and text are
    /// emptied, the parameter carries the failure description, and the
    /// error flag is raised. Nothing else changes.
    pub fn fail_render(&mut self, param: String)
        ensures
            final(self)@ == (TemplateModel {
                status: StatusModel::failure_state(param@),
                ..old(self)@
            }),
    {
        self.status = RenderStatus {
            code: String::new(),
            text: String::new(),
            param,
            failed: true,
        };
    }

    /// The status code of the last render attempt.
    pub fn get_status_code(&self) -> (r: &str)
        ensures
            r@ == self@.status.code,
    {
        self.status.code.as_str()
    }

    /// The status text of the last render attempt.
    pub fn get_status_text(&self) -> (r: &str)
        ensures
            r@ == self@.status.text,
    {
        self.status.text.as_str()
    }

    /// The additional status parameter of the last render attempt.
    pub fn get_status_param(&self) -> (r: &str)
        ensures
            r@ == self@.status.param,
    {
        self.status.param.as_str()
    }

    /// Whether the last render attempt failed.
    pub fn has_error(&self) -> (r: bool)
        ensures
            r == self@.status.failed,
    {
        self.status.failed
    }
}

} // verus!