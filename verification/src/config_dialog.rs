//! Descriptions of configuration values, as shown in the configuration dialog.
use crate::text::{chars_of, push_all, string_of};
use vstd::prelude::*;

verus! {

/// Metadata about a configuration field that is used to build the UI. `F` is the type of the
/// bounds of a floating-point field.
#[derive(Debug, PartialEq)]
pub struct FieldMetadata<F> {
    /// The name/identifier of the field
    pub name: String,
    /// Human-readable label for the field
    pub label: String,
    /// Description of what this field does
    pub description: String,
    /// Optional longer explanation of the field
    pub explanation: Option<String>,
    /// The type of the field
    pub field_type: FieldType<F>,
    /// Whether this field is required
    pub required: bool,
    /// UI order (lower values appear first)
    pub order: usize,
}

/// Describes the type of a configuration field. `F` is the type of the bounds of a
/// floating-point field.
#[derive(Debug, PartialEq)]
pub enum FieldType<F> {
    /// A boolean flag
    Bool,
    /// A floating point number
    Float { min: Option<F>, max: Option<F>, step: Option<F> },
    /// A 16-bit unsigned integer
    U16 { min: Option<u16>, max: Option<u16> },
    /// An unsigned integer (usize)
    USize { min: Option<usize>, max: Option<usize> },
    /// A signed 32-bit integer
    I32 { min: Option<i32>, max: Option<i32> },
    /// A text string
    String { multiline: bool, max_length: Option<usize> },
    /// A color value (RGBA)
    Color,
    /// An enumeration with named variants
    Enum { variants: Vec<EnumVariantMetadata> },
    /// A vector/list of values
    Vector {
        element_type: Box<FieldType<F>>,
        min_length: Option<usize>,
        max_length: Option<usize>,
    },
    /// A nested structure
    Struct { fields: Vec<FieldMetadata<F>> },
}

/// Describes a complete configuration section/struct
#[derive(Debug)]
pub struct ConfigSectionMetadata<F> {
    /// Name of the section
    pub name: String,
    /// Human-readable label
    pub label: String,
    /// Description of the section
    pub description: String,
    /// All fields in this section
    pub fields: Vec<FieldMetadata<F>>,
}

/// Metadata about an enumeration variant
#[derive(Clone, Debug, PartialEq)]
pub struct EnumVariantMetadata {
    /// The name of the variant (e.g., "Edge", "Scroll")
    pub name: String,
    /// Human-readable display name (can be different from `name`)
    pub display_name: Option<String>,
    /// Description of what this variant does
    pub description: Option<String>,
    /// Longer explanation of the variant
    pub explanation: Option<String>,
}

/// The name shown for a variant: its display name, or else its name.
pub open spec fn shown_variant_name(v: EnumVariantMetadata) -> Seq<char> {
    match v.display_name {
        Some(d) => d@,
        None => v.name@,
    }
}

impl EnumVariantMetadata {
    /// Get the display name, falling back to the variant name if not specified
    pub fn display_name(&self) -> (res: &str)
        ensures
            res@ == shown_variant_name(*self),
    {
        match &self.display_name {
            Some(d) => d.as_str(),
            None => self.name.as_str(),
        }
    }
}

/// Builder for enum variant metadata
pub struct EnumVariantBuilder {
    name: String,
    display_name: Option<String>,
    description: Option<String>,
    explanation: Option<String>,
}

impl EnumVariantBuilder {
    /// The metadata that `build` makes from this builder.
    pub closed spec fn built(self) -> EnumVariantMetadata {
        EnumVariantMetadata {
            name: self.name,
            display_name: self.display_name,
            description: self.description,
            explanation: self.explanation,
        }
    }

    /// Create a new enum variant builder
    pub fn new(name: &str) -> (res: Self)
        ensures
            res.built().name@ == name@,
            res.built().display_name is None,
            res.built().description is None,
            res.built().explanation is None,
    {
        Self { name: name.to_owned(), display_name: None, description: None, explanation: None }
    }

    /// Set the display name
    pub fn display_name(self, name: &str) -> (res: Self)
        ensures
            res.built().display_name matches Some(d) && d@ == name@,
            res.built().name == self.built().name,
            res.built().description == self.built().description,
            res.built().explanation == self.built().explanation,
    {
        let mut b = self;
        b.display_name = Some(name.to_owned());
        b
    }

    /// Set the description
    pub fn description(self, desc: &str) -> (res: Self)
        ensures
            res.built().description matches Some(d) && d@ == desc@,
            res.built().name == self.built().name,
            res.built().display_name == self.built().display_name,
            res.built().explanation == self.built().explanation,
    {
        let mut b = self;
        b.description = Some(desc.to_owned());
        b
    }

    /// Set the explanation
    pub fn explanation(self, expl: &str) -> (res: Self)
        ensures
            res.built().explanation matches Some(e) && e@ == expl@,
            res.built().name == self.built().name,
            res.built().display_name == self.built().display_name,
            res.built().description == self.built().description,
    {
        let mut b = self;
        b.explanation = Some(expl.to_owned());
        b
    }

    /// Build the metadata
    pub fn build(self) -> (res: EnumVariantMetadata)
        ensures
            res == self.built(),
    {
        EnumVariantMetadata {
            name: self.name,
            display_name: self.display_name,
            description: self.description,
            explanation: self.explanation,
        }
    }
}

/// What `char::to_uppercase` gives for `c`: the characters of its upper-case form.
pub uninterp spec fn upper_case(c: char) -> Seq<char>;

/// `char::to_uppercase`, written out: the upper-case form of `c`, which may be more than one
/// character (Unicode's case mapping, as the standard library has it).
#[verifier::external_body]
fn uppercase_of(c: char) -> (res: String)
    ensures
        res@ == upper_case(c),
{
    c.to_uppercase().to_string()
}

/// The label made from a snake_case name: each `_` becomes a space, and the first character
/// of each word is upper-cased.
pub open spec fn title_label(s: Seq<char>) -> Seq<char>
    decreases s.len(),
{
    if s.len() == 0 {
        Seq::empty()
    } else {
        let prev = title_label(s.drop_last());
        let c = s.last();
        if c == '_' {
            prev.push(' ')
        } else if s.len() == 1 || s[s.len() - 2] == '_' {
            prev + upper_case(c)
        } else {
            prev.push(c)
        }
    }
}

/// The label for the field named `name`.
fn label_from_name(name: &str) -> (res: String)
    ensures
        res@ == title_label(name@),
{
    let cs = chars_of(name);
    let mut out: Vec<char> = Vec::new();
    let mut i: usize = 0;
    assert(cs@.take(0) =~= Seq::<char>::empty());
    while i < cs.len()
        invariant
            i <= cs@.len(),
            cs@ == name@,
            out@ == title_label(cs@.take(i as int)),
        decreases cs@.len() - i,
    {
        let ghost t = cs@.take(i + 1);
        assert(t.drop_last() =~= cs@.take(i as int));
        assert(t.last() == cs@[i as int]);
        let c = cs[i];
        if c == '_' {
            out.push(' ');
        } else if i == 0 || cs[i - 1] == '_' {
            assert(i > 0 ==> t[t.len() - 2] == cs@[i - 1]);
            let upper = uppercase_of(c);
            let uc = chars_of(upper.as_str());
            push_all(&mut out, uc.as_slice());
        } else {
            assert(t[t.len() - 2] == cs@[i - 1]);
            out.push(c);
        }
        i = i + 1;
    }
    assert(cs@.take(i as int) =~= cs@);
    string_of(&out)
}

/// Builder for creating field metadata
pub struct FieldMetadataBuilder<F> {
    name: String,
    label: Option<String>,
    description: String,
    explanation: Option<String>,
    field_type: FieldType<F>,
    required: bool,
    order: usize,
}

impl<F> FieldMetadataBuilder<F> {
    /// The name of the field.
    pub closed spec fn name_text(self) -> Seq<char> {
        self.name@
    }

    /// The label that `build` gives: the one set, or else the one made from the name.
    pub closed spec fn label_text(self) -> Seq<char> {
        match self.label {
            Some(l) => l@,
            None => title_label(self.name@),
        }
    }

    /// The description of the field.
    pub closed spec fn description_text(self) -> Seq<char> {
        self.description@
    }

    /// The longer explanation of the field, if one was set.
    pub closed spec fn explanation_text(self) -> Option<Seq<char>> {
        match self.explanation {
            Some(e) => Some(e@),
            None => None,
        }
    }

    /// The type of the field.
    pub closed spec fn type_of_field(self) -> FieldType<F> {
        self.field_type
    }

    /// Whether the field is required.
    pub closed spec fn required_flag(self) -> bool {
        self.required
    }

    /// The place of the field in the dialog.
    pub closed spec fn order_value(self) -> usize {
        self.order
    }

    /// Create a new field metadata builder: no label yet, an empty description, no
    /// explanation, required, order 0.
    pub fn new(name: &str, field_type: FieldType<F>) -> (res: Self)
        ensures
            res.name_text() == name@,
            res.label_text() == title_label(name@),
            res.description_text() == Seq::<char>::empty(),
            res.explanation_text() is None,
            res.type_of_field() == field_type,
            res.required_flag(),
            res.order_value() == 0,
    {
        Self {
            name: name.to_owned(),
            label: None,
            description: String::new(),
            explanation: None,
            field_type,
            required: true,
            order: 0,
        }
    }

    /// Set the human-readable label
    pub fn label(self, label: &str) -> (res: Self)
        ensures
            res.label_text() == label@,
            res.name_text() == self.name_text(),
            res.description_text() == self.description_text(),
            res.explanation_text() == self.explanation_text(),
            res.type_of_field() == self.type_of_field(),
            res.required_flag() == self.required_flag(),
            res.order_value() == self.order_value(),
    {
        let mut b = self;
        b.label = Some(label.to_owned());
        b
    }

    /// Set the description
    pub fn description(self, desc: &str) -> (res: Self)
        ensures
            res.description_text() == desc@,
            res.name_text() == self.name_text(),
            res.label_text() == self.label_text(),
            res.explanation_text() == self.explanation_text(),
            res.type_of_field() == self.type_of_field(),
            res.required_flag() == self.required_flag(),
            res.order_value() == self.order_value(),
    {
        let mut b = self;
        b.description = desc.to_owned();
        b
    }

    /// Set the longer explanation
    pub fn explanation(self, expl: &str) -> (res: Self)
        ensures
            res.explanation_text() == Some(expl@),
            res.name_text() == self.name_text(),
            res.label_text() == self.label_text(),
            res.description_text() == self.description_text(),
            res.type_of_field() == self.type_of_field(),
            res.required_flag() == self.required_flag(),
            res.order_value() == self.order_value(),
    {
        let mut b = self;
        b.explanation = Some(expl.to_owned());
        b
    }

    /// Set whether this field is required
    pub fn required(self, required: bool) -> (res: Self)
        ensures
            res.required_flag() == required,
            res.name_text() == self.name_text(),
            res.label_text() == self.label_text(),
            res.description_text() == self.description_text(),
            res.explanation_text() == self.explanation_text(),
            res.type_of_field() == self.type_of_field(),
            res.order_value() == self.order_value(),
    {
        let mut b = self;
        b.required = required;
        b
    }

    /// Set the UI order
    pub fn order(self, order: usize) -> (res: Self)
        ensures
            res.order_value() == order,
            res.name_text() == self.name_text(),
            res.label_text() == self.label_text(),
            res.description_text() == self.description_text(),
            res.explanation_text() == self.explanation_text(),
            res.type_of_field() == self.type_of_field(),
            res.required_flag() == self.required_flag(),
    {
        let mut b = self;
        b.order = order;
        b
    }

    /// Build the metadata; a field without a label gets one made from its name.
    pub fn build(self) -> (res: FieldMetadata<F>)
        ensures
            res.name@ == self.name_text(),
            res.label@ == self.label_text(),
            res.description@ == self.description_text(),
            match res.explanation {
                Some(e) => self.explanation_text() == Some(e@),
                None => self.explanation_text() is None,
            },
            res.field_type == self.type_of_field(),
            res.required == self.required_flag(),
            res.order == self.order_value(),
    {
        let label = match self.label {
            Some(l) => l,
            None => label_from_name(self.name.as_str()),
        };
        FieldMetadata {
            name: self.name,
            label,
            description: self.description,
            explanation: self.explanation,
            field_type: self.field_type,
            required: self.required,
            order: self.order,
        }
    }
}

/// Dialog action result after user interaction
#[derive(Clone, Copy, Debug, PartialEq, Eq, Structural)]
pub enum DialogResult {
    /// User pressed OK/Save
    Applied,
    /// User pressed Cancel/Close
    Cancelled,
    /// Dialog is still open
    Pending,
}

} // verus!
