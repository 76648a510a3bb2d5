//! Structs, fields and models.
use vstd::prelude::*;

use crate::dsl::meta::clone_opt;
use crate::ordmap::OrdMap;
use crate::text::{same, Text};

verus! {

/// The typed model of a source document.
#[derive(Debug, PartialEq, Eq)]
pub struct SourceModelMeta {
    /// The id of the model.
    pub model_id: String,
    /// The name of the root struct.
    pub root: String,
    /// The structs by name.
    pub structs: OrdMap<String, StructMeta>,
}

/// One struct of a model.
#[derive(Debug, PartialEq, Eq)]
pub struct StructMeta {
    /// The fields by name.
    pub fields: OrdMap<String, FieldMeta>,
}

/// One field of a struct.
#[derive(Debug, PartialEq, Eq)]
pub struct FieldMeta {
    /// Whether the field may be absent.
    pub optional: bool,
    /// Whether the field holds a list.
    pub repeated: bool,
    /// What the field holds.
    pub ty: FieldType,
    /// The XML name: an element, `@attribute`, or `$text`.
    pub xml: Option<String>,
}

/// What a field holds.
#[derive(Debug, PartialEq, Eq)]
pub enum FieldType {
    /// A scalar.
    Scalar,
    /// A value of the named struct.
    Struct(String),
}

/// The model of a [`FieldMeta`].
#[verifier::ext_equal]
pub struct FieldV {
    pub optional: bool,
    pub repeated: bool,
    /// The name of the struct, if the field is not a scalar.
    pub ty: Option<Text>,
    pub xml: Option<Text>,
}

/// The fields of a struct, in name order.
pub type FieldsV = Seq<(Text, FieldV)>;

/// The structs of a model, in name order.
pub type StructsV = Seq<(Text, FieldsV)>;

/// The model of a [`SourceModelMeta`].
#[verifier::ext_equal]
pub struct ModelV {
    pub model_id: Text,
    pub root: Text,
    pub structs: StructsV,
}

impl View for FieldType {
    type V = Option<Text>;

    open spec fn view(&self) -> Option<Text> {
        match self {
            FieldType::Scalar => None,
            FieldType::Struct(name) => Some(name@),
        }
    }
}

impl View for FieldMeta {
    type V = FieldV;

    open spec fn view(&self) -> FieldV {
        FieldV {
            optional: self.optional,
            repeated: self.repeated,
            ty: self.ty@,
            xml: self.xml.deep_view(),
        }
    }
}

impl DeepView for FieldMeta {
    type V = FieldV;

    open spec fn deep_view(&self) -> FieldV {
        self@
    }
}

impl View for StructMeta {
    type V = FieldsV;

    open spec fn view(&self) -> FieldsV {
        self.fields@
    }
}

impl DeepView for StructMeta {
    type V = FieldsV;

    open spec fn deep_view(&self) -> FieldsV {
        self@
    }
}

impl View for SourceModelMeta {
    type V = ModelV;

    open spec fn view(&self) -> ModelV {
        ModelV { model_id: self.model_id@, root: self.root@, structs: self.structs@ }
    }
}

impl DeepView for SourceModelMeta {
    type V = ModelV;

    open spec fn deep_view(&self) -> ModelV {
        self@
    }
}

impl Default for StructMeta {
    fn default() -> (s: StructMeta)
        ensures
            s@ == Seq::<(Text, FieldV)>::empty(),
    {
        StructMeta { fields: OrdMap::new() }
    }
}

impl Clone for FieldType {
    fn clone(&self) -> (r: FieldType)
        ensures
            r@ == self@,
    {
        match self {
            FieldType::Scalar => FieldType::Scalar,
            FieldType::Struct(name) => FieldType::Struct(name.clone()),
        }
    }
}

impl Clone for FieldMeta {
    fn clone(&self) -> (r: FieldMeta)
        ensures
            r@ == self@,
    {
        FieldMeta {
            optional: self.optional,
            repeated: self.repeated,
            ty: self.ty.clone(),
            xml: clone_opt(&self.xml),
        }
    }
}

impl Clone for StructMeta {
    fn clone(&self) -> (r: StructMeta)
        ensures
            r@ == self@,
    {
        let mut fields: OrdMap<String, FieldMeta> = OrdMap::new();
        self.fields.sorted();
        let mut i: usize = 0;
        while i < self.fields.len()
            invariant
                i <= self.fields@.len(),
                crate::ordmap::ascending::<String, FieldV>(self.fields@),
                fields@ =~= self.fields@.take(i as int),
            decreases self.fields@.len() - i,
        {
            proof {
                crate::ordmap::lemma_put_last::<String, FieldV>(self.fields@, i as int);
            }
            fields.insert(self.fields.key_at(i).clone(), self.fields.value_at(i).clone());
            i += 1;
        }
        StructMeta { fields }
    }
}

impl Clone for SourceModelMeta {
    fn clone(&self) -> (r: SourceModelMeta)
        ensures
            r@ == self@,
    {
        let mut structs: OrdMap<String, StructMeta> = OrdMap::new();
        self.structs.sorted();
        let mut i: usize = 0;
        while i < self.structs.len()
            invariant
                i <= self.structs@.len(),
                crate::ordmap::ascending::<String, FieldsV>(self.structs@),
                structs@ =~= self.structs@.take(i as int),
            decreases self.structs@.len() - i,
        {
            proof {
                crate::ordmap::lemma_put_last::<String, FieldsV>(self.structs@, i as int);
            }
            structs.insert(self.structs.key_at(i).clone(), self.structs.value_at(i).clone());
            i += 1;
        }
        SourceModelMeta { model_id: self.model_id.clone(), root: self.root.clone(), structs }
    }
}

/// Whether two optional strings hold the same text.
pub fn same_opt(a: &Option<String>, b: &Option<String>) -> (r: bool)
    ensures
        r == (a.deep_view() == b.deep_view()),
{
    match (a, b) {
        (Some(x), Some(y)) => same(x.as_str(), y.as_str()),
        (None, None) => true,
        _ => false,
    }
}

impl FieldMeta {
    /// Whether two fields are declared alike.
    pub fn alike(&self, other: &FieldMeta) -> (r: bool)
        ensures
            r == (self@ == other@),
    {
        let ty = match (&self.ty, &other.ty) {
            (FieldType::Scalar, FieldType::Scalar) => true,
            (FieldType::Struct(x), FieldType::Struct(y)) => same(x.as_str(), y.as_str()),
            _ => false,
        };
        self.optional == other.optional && self.repeated == other.repeated && ty && same_opt(
            &self.xml,
            &other.xml,
        )
    }
}

/// What a path leads to.
#[derive(Debug, Clone, PartialEq, Eq)]
pub struct ResolvedField {
    /// Whether a field on the path repeats.
    pub repeated: bool,
    /// Whether a field on the path is optional.
    pub optional: bool,
    /// Whether the path ends at a struct.
    pub is_struct: bool,
    /// The name of that struct.
    pub struct_name: Option<String>,
}

/// The model of a [`ResolvedField`].
#[verifier::ext_equal]
pub struct ResolvedV {
    pub repeated: bool,
    pub optional: bool,
    pub is_struct: bool,
    pub struct_name: Option<Text>,
}

impl View for ResolvedField {
    type V = ResolvedV;

    open spec fn view(&self) -> ResolvedV {
        ResolvedV {
            repeated: self.repeated,
            optional: self.optional,
            is_struct: self.is_struct,
            struct_name: self.struct_name.deep_view(),
        }
    }
}

impl DeepView for ResolvedField {
    type V = ResolvedV;

    open spec fn deep_view(&self) -> ResolvedV {
        self@
    }
}

/// Why a path leads nowhere.
#[derive(Debug, Clone, PartialEq, Eq)]
pub enum PathError {
    /// The path is empty.
    Empty,
    /// The struct is not in the model.
    UnknownRoot(String),
    /// The struct has no such field.
    UnknownField { struct_name: String, field: String },
    /// The path goes on behind a scalar.
    NotAStruct { struct_name: String, field: String },
}

/// The model of a [`PathError`].
pub enum PathErrorV {
    Empty,
    UnknownRoot(Text),
    UnknownField { struct_name: Text, field: Text },
    NotAStruct { struct_name: Text, field: Text },
}

impl View for PathError {
    type V = PathErrorV;

    open spec fn view(&self) -> PathErrorV {
        match self {
            PathError::Empty => PathErrorV::Empty,
            PathError::UnknownRoot(s) => PathErrorV::UnknownRoot(s@),
            PathError::UnknownField { struct_name, field } => PathErrorV::UnknownField {
                struct_name: struct_name@,
                field: field@,
            },
            PathError::NotAStruct { struct_name, field } => PathErrorV::NotAStruct {
                struct_name: struct_name@,
                field: field@,
            },
        }
    }
}

impl DeepView for PathError {
    type V = PathErrorV;

    open spec fn deep_view(&self) -> PathErrorV {
        self@
    }
}

/// A path error in words.
pub open spec fn path_error_text(e: PathErrorV) -> Text {
    match e {
        PathErrorV::Empty => "empty source path"@,
        PathErrorV::UnknownRoot(s) => "root struct `"@ + s
            + "` is not defined in the source model"@,
        PathErrorV::UnknownField { struct_name, field } => "field `"@ + field
            + "` does not exist on struct `"@ + struct_name + "`"@,
        PathErrorV::NotAStruct { struct_name, field } => "cannot descend into scalar field `"@
            + field + "` of struct `"@ + struct_name + "`"@,
    }
}

impl PathError {
    /// The error in words.
    pub fn message(&self) -> (out: String)
        ensures
            out@ == path_error_text(self@),
    {
        match self {
            PathError::Empty => "empty source path".to_string(),
            PathError::UnknownRoot(s) => {
                let mut out = "root struct `".to_string();
                out.push_str(s.as_str());
                out.push_str("` is not defined in the source model");
                out
            },
            PathError::UnknownField { struct_name, field } => {
                let mut out = "field `".to_string();
                out.push_str(field.as_str());
                out.push_str("` does not exist on struct `");
                out.push_str(struct_name.as_str());
                out.push_str("`");
                out
            },
            PathError::NotAStruct { struct_name, field } => {
                let mut out = "cannot descend into scalar field `".to_string();
                out.push_str(field.as_str());
                out.push_str("` of struct `");
                out.push_str(struct_name.as_str());
                out.push_str("`");
                out
            },
        }
    }
}

/// Builds a model struct by struct.
#[derive(Debug)]
pub struct SourceModelBuilder {
    model_id: String,
    root: String,
    structs: OrdMap<String, StructMeta>,
}

impl View for SourceModelBuilder {
    type V = ModelV;

    /// The model built so far.
    closed spec fn view(&self) -> ModelV {
        ModelV { model_id: self.model_id@, root: self.root@, structs: self.structs@ }
    }
}

/// The fields that a list of declarations gives, a later one replacing an
/// earlier one of the same name.
pub open spec fn declared_fields(decls: Seq<(&str, bool, bool, FieldType)>) -> FieldsV
    decreases decls.len(),
{
    if decls.len() == 0 {
        Seq::empty()
    } else {
        let d = decls.last();
        crate::ordmap::put::<String, FieldV>(
            declared_fields(decls.drop_last()),
            d.0@,
            FieldV { optional: d.1, repeated: d.2, ty: d.3@, xml: None },
        )
    }
}

impl SourceModelBuilder {
    /// A model without structs.
    pub fn new(model_id: &str, root: &str) -> (b: SourceModelBuilder)
        ensures
            b@ == (ModelV { model_id: model_id@, root: root@, structs: Seq::empty() }),
    {
        SourceModelBuilder {
            model_id: model_id.to_string(),
            root: root.to_string(),
            structs: OrdMap::new(),
        }
    }

    /// Adds a struct with fields given as `(name, optional, repeated, type)`.
    pub fn struct_def(
        self,
        name: &str,
        fields: &[(&str, bool, bool, FieldType)],
    ) -> (b: SourceModelBuilder)
        ensures
            b@ == (ModelV {
                structs: crate::ordmap::put::<String, FieldsV>(
                    self@.structs,
                    name@,
                    declared_fields(fields@),
                ),
                ..self@
            }),
    {
        let mut meta = StructMeta::default();
        let mut i: usize = 0;
        while i < fields.len()
            invariant
                i <= fields@.len(),
                meta@ == declared_fields(fields@.take(i as int)),
            decreases fields@.len() - i,
        {
            proof {
                assert(fields@.take(i + 1).drop_last() =~= fields@.take(i as int));
            }
            meta.fields.insert(
                fields[i].0.to_string(),
                FieldMeta {
                    optional: fields[i].1,
                    repeated: fields[i].2,
                    ty: fields[i].3.clone(),
                    xml: None,
                },
            );
            i += 1;
        }
        assert(fields@.take(fields@.len() as int) =~= fields@);
        let mut b = self;
        b.structs.insert(name.to_string(), meta);
        b
    }

    /// The finished model.
    pub fn build(self) -> (m: SourceModelMeta)
        ensures
            m@ == self@,
    {
        SourceModelMeta { model_id: self.model_id, root: self.root, structs: self.structs }
    }
}

} // verus!
