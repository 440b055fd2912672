//! The part of the configuration dialog that does not draw: the values of a form, which
//! widget suits a field, and whether a value fits its field.
use crate::config_dialog::{ConfigSectionMetadata, EnumVariantMetadata, FieldMetadata, FieldType};
use crate::text::{chars_of, nat_decimal, push_all, push_decimal, string_of};
use crate::time::{byte_len, byte_len_exceeds};
use vstd::prelude::*;

verus! {

/// A value in the configuration form. `F` is the type of a floating-point value.
#[derive(Debug, PartialEq)]
pub enum FormValue<F> {
    Bool(bool),
    Float(F),
    Integer(i64),
    String(String),
    Enum(String),
    Color([u8; 3]),
    List(Vec<FormValue<F>>),
}

impl<F> FormValue<F> {
    /// Convert to boolean representation
    pub fn as_bool(&self) -> (res: Option<bool>)
        ensures
            res == match *self {
                FormValue::Bool(b) => Some(b),
                _ => None,
            },
    {
        match self {
            FormValue::Bool(b) => Some(*b),
            _ => None,
        }
    }

    /// Convert to string representation
    pub fn as_string(&self) -> (res: Option<&str>)
        ensures
            match *self {
                FormValue::String(s) => res matches Some(r) && r@ == s@,
                _ => res is None,
            },
    {
        match self {
            FormValue::String(s) => Some(s.as_str()),
            _ => None,
        }
    }

    /// Convert to enum representation
    pub fn as_enum(&self) -> (res: Option<&str>)
        ensures
            match *self {
                FormValue::Enum(e) => res matches Some(r) && r@ == e@,
                _ => res is None,
            },
    {
        match self {
            FormValue::Enum(e) => Some(e.as_str()),
            _ => None,
        }
    }

    /// Convert to color representation
    pub fn as_color(&self) -> (res: Option<[u8; 3]>)
        ensures
            res == match *self {
                FormValue::Color(c) => Some(c),
                _ => None,
            },
    {
        match self {
            FormValue::Color(c) => Some(*c),
            _ => None,
        }
    }
}

/// Suggested UI widget type based on field type
#[derive(Clone, Copy, Debug, PartialEq, Eq, Structural)]
pub enum SuggestedWidget {
    /// A checkbox for boolean values
    Checkbox,
    /// A text input field
    TextInput,
    /// A multi-line text editor
    TextArea,
    /// A dropdown selection
    Dropdown,
    /// A slider for numeric values
    Slider,
    /// A spinner (up/down buttons with text)
    Spinner,
    /// A color picker
    ColorPicker,
    /// A list/vector editor
    ListEditor,
    /// A nested form for structs
    NestedForm,
    /// Read-only label
    ReadOnly,
}

/// The widget for a field: a slider for a number bounded on both sides, a spinner for an
/// integer that is not (a text input for such a floating-point number), and one widget for
/// each other kind of field.
pub open spec fn widget_for<F>(field_type: FieldType<F>) -> SuggestedWidget {
    match field_type {
        FieldType::Bool => SuggestedWidget::Checkbox,
        FieldType::Float { min, max, .. } => if min is Some && max is Some {
            SuggestedWidget::Slider
        } else {
            SuggestedWidget::TextInput
        },
        FieldType::U16 { min, max } => if min is Some && max is Some {
            SuggestedWidget::Slider
        } else {
            SuggestedWidget::Spinner
        },
        FieldType::USize { min, max } => if min is Some && max is Some {
            SuggestedWidget::Slider
        } else {
            SuggestedWidget::Spinner
        },
        FieldType::I32 { min, max } => if min is Some && max is Some {
            SuggestedWidget::Slider
        } else {
            SuggestedWidget::Spinner
        },
        FieldType::String { multiline, .. } => if multiline {
            SuggestedWidget::TextArea
        } else {
            SuggestedWidget::TextInput
        },
        FieldType::Color => SuggestedWidget::ColorPicker,
        FieldType::Enum { .. } => SuggestedWidget::Dropdown,
        FieldType::Vector { .. } => SuggestedWidget::ListEditor,
        FieldType::Struct { .. } => SuggestedWidget::NestedForm,
    }
}

impl SuggestedWidget {
    /// Get the suggested widget type for a field
    pub fn for_field<F>(field_type: &FieldType<F>) -> (res: Self)
        ensures
            res == widget_for(*field_type),
    {
        match field_type {
            FieldType::Bool => SuggestedWidget::Checkbox,
            FieldType::Float { min, max, .. } => {
                if min.is_some() && max.is_some() {
                    SuggestedWidget::Slider
                } else {
                    SuggestedWidget::TextInput
                }
            },
            FieldType::U16 { min, max } => {
                if min.is_some() && max.is_some() {
                    SuggestedWidget::Slider
                } else {
                    SuggestedWidget::Spinner
                }
            },
            FieldType::USize { min, max } => {
                if min.is_some() && max.is_some() {
                    SuggestedWidget::Slider
                } else {
                    SuggestedWidget::Spinner
                }
            },
            FieldType::I32 { min, max } => {
                if min.is_some() && max.is_some() {
                    SuggestedWidget::Slider
                } else {
                    SuggestedWidget::Spinner
                }
            },
            FieldType::String { multiline, .. } => {
                if *multiline {
                    SuggestedWidget::TextArea
                } else {
                    SuggestedWidget::TextInput
                }
            },
            FieldType::Color => SuggestedWidget::ColorPicker,
            FieldType::Enum { .. } => SuggestedWidget::Dropdown,
            FieldType::Vector { .. } => SuggestedWidget::ListEditor,
            FieldType::Struct { .. } => SuggestedWidget::NestedForm,
        }
    }
}

/// Validates a form value against field constraints
pub struct FormValidator;

/// Whether one of `variants` is named `name`.
pub open spec fn has_variant(variants: Seq<EnumVariantMetadata>, name: Seq<char>) -> bool {
    exists|k: int| 0 <= k < variants.len() && (#[trigger] variants[k]).name@ == name
}

/// Whether `value` is a floating-point value given for a floating-point field: that check
/// compares floating-point numbers.
pub open spec fn is_float_check<F>(field_type: FieldType<F>, value: FormValue<F>) -> bool {
    field_type is Float && value is Float
}

/// Whether `value` fits `field_type`, and if not, the message that says why: an integer
/// of an unsigned field must not be negative and must lie within the bounds, a string must
/// not have more bytes than its maximum length, an enumeration value must name a variant,
/// and a value of another kind than its field is a mismatch.
pub open spec fn validation<F>(field_type: FieldType<F>, value: FormValue<F>) -> Result<(), Seq<char>> {
    match field_type {
        FieldType::Bool => match value {
            FormValue::Bool(_) => Ok(()),
            _ => Err("Type mismatch between field and value"@),
        },
        FieldType::USize { min, max } => match value {
            FormValue::Integer(i) => if i < 0 {
                Err("Value must be non-negative"@)
            } else if min matches Some(m) && i < m {
                Err("Value must be at least "@ + nat_decimal(min->0 as nat))
            } else if max matches Some(m) && i > m {
                Err("Value must be at most "@ + nat_decimal(max->0 as nat))
            } else {
                Ok(())
            },
            _ => Err("Type mismatch between field and value"@),
        },
        FieldType::String { max_length, .. } => match value {
            FormValue::String(s) => if max_length matches Some(m) && byte_len(s@) > m {
                Err("String must be at most "@ + nat_decimal(max_length->0 as nat) + " characters"@)
            } else {
                Ok(())
            },
            _ => Err("Type mismatch between field and value"@),
        },
        FieldType::Enum { variants } => match value {
            FormValue::Enum(e) => if has_variant(variants@, e@) {
                Ok(())
            } else {
                Err("'"@ + e@ + "' is not a valid option"@)
            },
            _ => Err("Type mismatch between field and value"@),
        },
        FieldType::Color => match value {
            FormValue::Color(_) => Ok(()),
            _ => Err("Type mismatch between field and value"@),
        },
        _ => Err("Type mismatch between field and value"@),
    }
}

/// An integer fits an unsigned field exactly when it is not negative and lies within the
/// field's bounds, both bounds included; a value below the minimum is refused with a message
/// naming the minimum, one above the maximum with a message naming the maximum. A string fits
/// a string field exactly when it has no more bytes than its maximum length, and an
/// enumeration value fits exactly when a variant has that name; a boolean or color value fits
/// its own kind of field.
pub proof fn law_validation_accepts_exactly_the_values_within_bounds<F>(
    min: Option<usize>,
    max: Option<usize>,
    v: i64,
    max_length: Option<usize>,
    multiline: bool,
    s: String,
    variants: Vec<EnumVariantMetadata>,
    e: String,
    flag: bool,
    color: [u8; 3],
)
    ensures
        validation(FieldType::<F>::USize { min, max }, FormValue::<F>::Integer(v)) is Ok <==> (
        0 <= v && (min matches Some(m) ==> m <= v) && (max matches Some(m) ==> v <= m)),
        0 <= v && min is Some && v < min->0 ==> validation(
            FieldType::<F>::USize { min, max },
            FormValue::<F>::Integer(v),
        ) == Err::<(), Seq<char>>("Value must be at least "@ + nat_decimal(min->0 as nat)),
        0 <= v && (min matches Some(m) ==> m <= v) && max is Some && v > max->0 ==> validation(
            FieldType::<F>::USize { min, max },
            FormValue::<F>::Integer(v),
        ) == Err::<(), Seq<char>>("Value must be at most "@ + nat_decimal(max->0 as nat)),
        validation(
            FieldType::<F>::String { multiline, max_length },
            FormValue::<F>::String(s),
        ) is Ok <==> (max_length matches Some(m) ==> byte_len(s@) <= m),
        validation(FieldType::<F>::Enum { variants }, FormValue::<F>::Enum(e)) is Ok <==> (exists|
            k: int,
        | 0 <= k < variants@.len() && (#[trigger] variants@[k]).name@ == e@),
        validation(FieldType::<F>::Bool, FormValue::<F>::Bool(flag)) is Ok,
        validation(FieldType::<F>::Color, FormValue::<F>::Color(color)) is Ok,
        validation(FieldType::<F>::Bool, FormValue::<F>::Integer(v)) is Err,
{
}

/// The text `prefix`, the decimal digits of `n`, and the text `suffix`.
fn text_with_number(prefix: &str, n: usize, suffix: &str) -> (res: String)
    ensures
        res@ == prefix@ + nat_decimal(n as nat) + suffix@,
{
    let mut out: Vec<char> = chars_of(prefix);
    push_decimal(n as u64, &mut out);
    let tail = chars_of(suffix);
    push_all(&mut out, tail.as_slice());
    string_of(&out)
}

/// Whether `a` and `b` are the same text.
fn same_text(a: &str, b: &str) -> (res: bool)
    ensures
        res == (a@ == b@),
{
    let x = chars_of(a);
    let y = chars_of(b);
    if x.len() != y.len() {
        return false;
    }
    let mut i: usize = 0;
    while i < x.len()
        invariant
            i <= x@.len() == y@.len(),
            x@ == a@,
            y@ == b@,
            forall|k: int| 0 <= k < i ==> x@[k] == y@[k],
        decreases x@.len() - i,
    {
        if x[i] != y[i] {
            return false;
        }
        i = i + 1;
    }
    assert(x@ =~= y@);
    true
}

impl FormValidator {
    /// Validate a form value against a field's type constraints. A floating-point value for a
    /// floating-point field is checked by the caller: that check compares floating-point
    /// numbers.
    pub fn validate<F>(field: &FieldMetadata<F>, value: &FormValue<F>) -> (res: Result<(), String>)
        requires
            !is_float_check(field.field_type, *value),
        ensures
            match (res, validation(field.field_type, *value)) {
                (Ok(()), Ok(())) => true,
                (Err(m), Err(t)) => m@ == t,
                _ => false,
            },
    {
        proof {
            reveal_strlit("Type mismatch between field and value");
            reveal_strlit("Value must be non-negative");
            reveal_strlit("");
        }
        match &field.field_type {
            FieldType::Bool => match value {
                FormValue::Bool(_) => Ok(()),
                _ => Err("Type mismatch between field and value".to_owned()),
            },
            FieldType::USize { min, max } => match value {
                FormValue::Integer(i) => {
                    let i = *i;
                    if i < 0 {
                        return Err("Value must be non-negative".to_owned());
                    }
                    if let Some(m) = min {
                        if (i as u64) < (*m as u64) {
                            let msg = text_with_number("Value must be at least ", *m, "");
                            assert(msg@ =~= "Value must be at least "@ + nat_decimal(*m as nat));
                            return Err(msg);
                        }
                    }
                    if let Some(m) = max {
                        if (i as u64) > (*m as u64) {
                            let msg = text_with_number("Value must be at most ", *m, "");
                            assert(msg@ =~= "Value must be at most "@ + nat_decimal(*m as nat));
                            return Err(msg);
                        }
                    }
                    Ok(())
                },
                _ => Err("Type mismatch between field and value".to_owned()),
            },
            FieldType::String { max_length, .. } => match value {
                FormValue::String(s) => {
                    if let Some(m) = max_length {
                        let cs = chars_of(s.as_str());
                        if byte_len_exceeds(cs.as_slice(), *m) {
                            return Err(
                                text_with_number("String must be at most ", *m, " characters"),
                            );
                        }
                    }
                    Ok(())
                },
                _ => Err("Type mismatch between field and value".to_owned()),
            },
            FieldType::Enum { variants } => match value {
                FormValue::Enum(e) => {
                    let mut k: usize = 0;
                    while k < variants.len()
                        invariant
                            k <= variants@.len(),
                            forall|j: int| 0 <= j < k ==> (#[trigger] variants@[j]).name@ != e@,
                            field.field_type == (FieldType::<F>::Enum { variants: *variants }),
                            *value == FormValue::<F>::Enum(*e),
                        decreases variants@.len() - k,
                    {
                        if same_text(variants[k].name.as_str(), e.as_str()) {
                            assert(variants@[k as int].name@ == e@);
                            assert(has_variant(variants@, e@));
                            return Ok(());
                        }
                        k = k + 1;
                    }
                    let quote = chars_of("'");
                    let mut out: Vec<char> = quote;
                    let name = chars_of(e.as_str());
                    push_all(&mut out, name.as_slice());
                    let tail = chars_of("' is not a valid option");
                    push_all(&mut out, tail.as_slice());
                    Err(string_of(&out))
                },
                _ => Err("Type mismatch between field and value".to_owned()),
            },
            FieldType::Color => match value {
                FormValue::Color(_) => Ok(()),
                _ => Err("Type mismatch between field and value".to_owned()),
            },
            _ => Err("Type mismatch between field and value".to_owned()),
        }
    }
}

/// `x` placed into `sorted` after every field whose order is at most its own.
pub open spec fn insert_by_order<F>(sorted: Seq<FieldMetadata<F>>, x: FieldMetadata<F>) -> Seq<
    FieldMetadata<F>,
>
    decreases sorted.len(),
{
    if sorted.len() == 0 {
        seq![x]
    } else if sorted.last().order <= x.order {
        sorted.push(x)
    } else {
        insert_by_order(sorted.drop_last(), x).push(sorted.last())
    }
}

/// `fields` sorted by their order, fields of equal order keeping theirs: what a stable sort by
/// order gives.
pub open spec fn sort_by_order<F>(fields: Seq<FieldMetadata<F>>) -> Seq<FieldMetadata<F>>
    decreases fields.len(),
{
    if fields.len() == 0 {
        fields
    } else {
        insert_by_order(sort_by_order(fields.drop_last()), fields.last())
    }
}

/// The fields that `refs` refer to.
pub open spec fn referred<F>(refs: Seq<&FieldMetadata<F>>) -> Seq<FieldMetadata<F>> {
    refs.map_values(|r: &FieldMetadata<F>| *r)
}

proof fn lemma_insert_by_order_step<F>(s: Seq<FieldMetadata<F>>, x: FieldMetadata<F>, j: int)
    requires
        0 < j <= s.len(),
        s[j - 1].order > x.order,
    ensures
        insert_by_order(s.take(j), x) + s.skip(j) == insert_by_order(s.take(j - 1), x) + s.skip(
            j - 1,
        ),
{
    assert(s.take(j).drop_last() =~= s.take(j - 1));
    assert(s.take(j).last() == s[j - 1]);
    assert(insert_by_order(s.take(j - 1), x).push(s[j - 1]) + s.skip(j) =~= insert_by_order(
        s.take(j - 1),
        x,
    ) + s.skip(j - 1));
}

/// Helper for building configuration dialog forms
pub struct ConfigDialogBuilder<F> {
    metadata: ConfigSectionMetadata<F>,
}

impl<F> ConfigDialogBuilder<F> {
    /// The metadata of the section the dialog edits.
    pub closed spec fn section(self) -> ConfigSectionMetadata<F> {
        self.metadata
    }

    /// Create a new dialog builder for a configuration section
    pub fn new(metadata: ConfigSectionMetadata<F>) -> (res: Self)
        ensures
            res.section() == metadata,
    {
        ConfigDialogBuilder { metadata }
    }

    /// Get the metadata
    pub fn metadata(&self) -> (res: &ConfigSectionMetadata<F>)
        ensures
            *res == self.section(),
    {
        &self.metadata
    }

    /// Get fields sorted by order; fields of equal order keep the order of the section.
    pub fn fields_sorted(&self) -> (res: Vec<&FieldMetadata<F>>)
        ensures
            referred(res@) == sort_by_order(self.section().fields@),
    {
        let fields = &self.metadata.fields;
        let ghost all = fields@;
        let mut res: Vec<&FieldMetadata<F>> = Vec::new();
        let mut taken: usize = 0;
        assert(all.take(0) =~= Seq::<FieldMetadata<F>>::empty());
        assert(referred(res@) =~= Seq::<FieldMetadata<F>>::empty());
        while taken < fields.len()
            invariant
                taken <= all.len(),
                all == fields@,
                all == self.section().fields@,
                referred(res@) == sort_by_order(all.take(taken as int)),
            decreases all.len() - taken,
        {
            let x = &fields[taken];
            let ghost s = referred(res@);
            let mut j = res.len();
            assert(s.take(j as int) =~= s);
            assert(s.skip(j as int) =~= Seq::<FieldMetadata<F>>::empty());
            while j > 0 && res[j - 1].order > x.order
                invariant
                    j <= s.len(),
                    s == referred(res@),
                    s.len() == res@.len(),
                    insert_by_order(s, *x) == insert_by_order(s.take(j as int), *x) + s.skip(
                        j as int,
                    ),
                decreases j,
            {
                assert(s[j - 1] == *res@[j - 1]);
                proof {
                    lemma_insert_by_order_step(s, *x, j as int);
                }
                j = j - 1;
            }
            proof {
                if j == 0 {
                    assert(s.take(0) =~= Seq::<FieldMetadata<F>>::empty());
                    assert(seq![*x] + s.skip(0) =~= s.insert(0, *x));
                } else {
                    assert(s.take(j as int).last() == s[j - 1]);
                    assert(s.take(j as int).push(*x) + s.skip(j as int) =~= s.insert(j as int, *x));
                }
                assert(all.take(taken + 1).drop_last() =~= all.take(taken as int));
                assert(all.take(taken + 1).last() == *x);
            }
            res.insert(j, x);
            assert(referred(res@) =~= s.insert(j as int, *x));
            taken = taken + 1;
        }
        assert(all.take(taken as int) =~= all);
        res
    }
}

/// Whether the orders of `s` never decrease.
pub open spec fn orders_sorted<F>(s: Seq<FieldMetadata<F>>) -> bool {
    forall|i: int, j: int| 0 <= i < j < s.len() ==> s[i].order <= s[j].order
}

/// Inserting by order adds exactly the inserted field.
proof fn lemma_insert_by_order_fields<F>(s: Seq<FieldMetadata<F>>, x: FieldMetadata<F>)
    ensures
        insert_by_order(s, x).to_multiset() == s.to_multiset().insert(x),
    decreases s.len(),
{
    broadcast use vstd::seq_lib::group_to_multiset_ensures;

    if s.len() == 0 {
        assert(seq![x] =~= s.push(x));
    } else if s.last().order <= x.order {
    } else {
        lemma_insert_by_order_fields(s.drop_last(), x);
        assert(s.drop_last().push(s.last()) =~= s);
        assert(insert_by_order(s, x).to_multiset() =~= s.to_multiset().insert(x));
    }
}

/// Inserting by order into fields sorted by order keeps them sorted.
proof fn lemma_insert_by_order_keeps_order<F>(s: Seq<FieldMetadata<F>>, x: FieldMetadata<F>)
    requires
        orders_sorted(s),
    ensures
        orders_sorted(insert_by_order(s, x)),
    decreases s.len(),
{
    broadcast use vstd::seq_lib::group_to_multiset_ensures;

    if s.len() > 0 && s.last().order > x.order {
        let t = s.drop_last();
        let l = s.last();
        lemma_insert_by_order_keeps_order(t, x);
        lemma_insert_by_order_fields(t, x);
        let r = insert_by_order(t, x);
        assert forall|i: int| 0 <= i < r.len() implies r[i].order <= l.order by {
            assert(r.to_multiset().count(r[i]) > 0);
            if r[i] != x {
                assert(t.to_multiset().count(r[i]) > 0);
                assert(t.contains(r[i]));
                let k = choose|k: int| 0 <= k < t.len() && t[k] == r[i];
                assert(s[k] == t[k]);
            }
        }
        assert forall|i: int, j: int| 0 <= i < j < r.push(l).len() implies r.push(l)[i].order <= r.push(
            l,
        )[j].order by {
            if j < r.len() {
                assert(r.push(l)[i] == r[i]);
                assert(r.push(l)[j] == r[j]);
            } else {
                assert(r.push(l)[i] == r[i]);
            }
        }
    }
}

/// `fields_sorted` gives the fields in order: their orders never decrease.
pub proof fn law_fields_sorted_in_order<F>(s: Seq<FieldMetadata<F>>)
    ensures
        orders_sorted(sort_by_order(s)),
    decreases s.len(),
{
    if s.len() > 0 {
        law_fields_sorted_in_order(s.drop_last());
        lemma_insert_by_order_keeps_order(sort_by_order(s.drop_last()), s.last());
    }
}

/// `fields_sorted` gives back exactly the fields of the section, none lost or added.
pub proof fn law_fields_sorted_same_fields<F>(s: Seq<FieldMetadata<F>>)
    ensures
        sort_by_order(s).to_multiset() == s.to_multiset(),
    decreases s.len(),
{
    broadcast use vstd::seq_lib::group_to_multiset_ensures;

    if s.len() > 0 {
        law_fields_sorted_same_fields(s.drop_last());
        lemma_insert_by_order_fields(sort_by_order(s.drop_last()), s.last());
        assert(s.drop_last().push(s.last()) =~= s);
    }
}

/// The fields of `s` whose order is `k`, in their order in `s`.
pub open spec fn with_order<F>(s: Seq<FieldMetadata<F>>, k: usize) -> Seq<FieldMetadata<F>>
    decreases s.len(),
{
    if s.len() == 0 {
        s
    } else if s.last().order == k {
        with_order(s.drop_last(), k).push(s.last())
    } else {
        with_order(s.drop_last(), k)
    }
}

proof fn lemma_insert_by_order_with_order<F>(s: Seq<FieldMetadata<F>>, x: FieldMetadata<F>, k: usize)
    ensures
        with_order(insert_by_order(s, x), k) == if x.order == k {
            with_order(s, k).push(x)
        } else {
            with_order(s, k)
        },
    decreases s.len(),
{
    if s.len() == 0 {
        assert(seq![x].drop_last() =~= s);
        assert(seq![x].last() == x);
    } else if s.last().order <= x.order {
        assert(s.push(x).drop_last() =~= s);
    } else {
        let t = s.drop_last();
        let l = s.last();
        lemma_insert_by_order_with_order(t, x, k);
        let r = insert_by_order(t, x);
        assert(r.push(l).drop_last() =~= r);
        assert(with_order(s, k) == if l.order == k {
            with_order(t, k).push(l)
        } else {
            with_order(t, k)
        });
    }
}

/// `fields_sorted` keeps fields of equal order in the order of the section.
pub proof fn law_fields_sorted_stable<F>(s: Seq<FieldMetadata<F>>, k: usize)
    ensures
        with_order(sort_by_order(s), k) == with_order(s, k),
    decreases s.len(),
{
    if s.len() > 0 {
        law_fields_sorted_stable(s.drop_last(), k);
        lemma_insert_by_order_with_order(sort_by_order(s.drop_last()), s.last(), k);
    }
}

} // verus!
