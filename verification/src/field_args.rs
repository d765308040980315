//! The metadata fields a host passes when it builds an `ObjectMetadata`: each one is
//! omitted, the universal set, or a set of labels, and is checked before it is kept.
use vstd::prelude::*;

verus! {

/// What the host passed for one metadata field.
pub enum FieldArg {
    /// The field was omitted.
    Omitted,
    /// The universal set.
    Universal,
    /// A set of labels.
    Labels(Vec<String>),
    /// A value of another type, given by its type's name.
    Other(String),
}

/// A checked metadata field: the universal set, or a finite set of labels.
pub enum FieldValue {
    Universal,
    Labels(Vec<String>),
}

/// Why a field was refused, with the message the host shows.
pub enum FieldError {
    /// A `ValueError`: a label is the empty string.
    EmptyLabel(String),
    /// A `TypeError`: the value is neither a set of labels nor the universal set.
    WrongType(String),
}

/// The result of checking one field.
pub type FieldResult = Result<FieldValue, FieldError>;

/// The result of checking that no label is empty.
pub type LabelsCheck = Result<(), String>;

/// No label of `labels` is the empty string.
pub open spec fn labels_non_empty(labels: Seq<String>) -> bool {
    forall|i: int| 0 <= i < labels.len() ==> #[trigger] labels[i]@.len() > 0
}

/// The message for an empty label in the field `field`.
pub open spec fn empty_label_message(field: Seq<char>) -> Seq<char> {
    field + " must not contain empty strings"@
}

/// The message for a value of type `type_text` in the field `field`.
pub open spec fn wrong_type_message(field: Seq<char>, type_text: Seq<char>) -> Seq<char> {
    field + " must be a frozenset[str] or UNIVERSAL, got "@ + type_text
}

/// Checks that no label of the field `field_name` is the empty string.
pub fn validate_no_empty_strings(labels: &Vec<String>, field_name: &str) -> (r: LabelsCheck)
    ensures
        r is Ok <==> labels_non_empty(labels@),
        r matches Err(m) ==> m@ == empty_label_message(field_name@),
{
    let mut i: usize = 0;
    while i < labels.len()
        invariant
            i <= labels@.len(),
            forall|j: int| 0 <= j < i ==> #[trigger] labels@[j]@.len() > 0,
        decreases labels@.len() - i,
    {
        if labels[i].as_str().unicode_len() == 0 {
            let mut m = String::from_str(field_name);
            m.append(" must not contain empty strings");
            return Err(m);
        }
        i = i + 1;
    }
    Ok(())
}

/// A field as checked, in spec terms: the universal set, labels, or a refusal with its
/// message.
pub enum FieldView {
    Universal,
    Labels(Seq<String>),
    EmptyLabel(Seq<char>),
    WrongType(Seq<char>),
}

impl FieldView {
    /// Whether the field was refused.
    pub open spec fn is_error(self) -> bool {
        self is EmptyLabel || self is WrongType
    }
}

/// A checked field in spec terms.
pub open spec fn value_view(v: FieldValue) -> FieldView {
    match v {
        FieldValue::Universal => FieldView::Universal,
        FieldValue::Labels(ls) => FieldView::Labels(ls@),
    }
}

/// A refusal in spec terms.
pub open spec fn error_view(e: FieldError) -> FieldView {
    match e {
        FieldError::EmptyLabel(m) => FieldView::EmptyLabel(m@),
        FieldError::WrongType(m) => FieldView::WrongType(m@),
    }
}

/// The outcome of checking one field in spec terms.
pub open spec fn result_view(r: FieldResult) -> FieldView {
    match r {
        Ok(v) => value_view(v),
        Err(e) => error_view(e),
    }
}

/// What checking the field `field` with the value `value` gives, where an omitted field
/// takes `default`.
pub open spec fn field_view(value: FieldArg, field: Seq<char>, default: FieldView) -> FieldView {
    match value {
        FieldArg::Omitted => default,
        FieldArg::Universal => FieldView::Universal,
        FieldArg::Labels(ls) => if labels_non_empty(ls@) {
            FieldView::Labels(ls@)
        } else {
            FieldView::EmptyLabel(empty_label_message(field))
        },
        FieldArg::Other(t) => FieldView::WrongType(wrong_type_message(field, t@)),
    }
}

/// Checks one field of a new `ObjectMetadata`: an omitted field takes `default`; the
/// universal set is kept; a set of labels is kept when none of them is empty, else it is
/// refused with a `ValueError`; anything else is refused with a `TypeError`.
pub fn parse_metadata_field(value: FieldArg, field_name: &str, default: FieldValue) -> (r: FieldResult)
    ensures
        result_view(r) == field_view(value, field_name@, value_view(default)),
{
    match value {
        FieldArg::Omitted => Ok(default),
        FieldArg::Universal => Ok(FieldValue::Universal),
        FieldArg::Labels(ls) => match validate_no_empty_strings(&ls, field_name) {
            Ok(()) => Ok(FieldValue::Labels(ls)),
            Err(m) => Err(FieldError::EmptyLabel(m)),
        },
        FieldArg::Other(t) => {
            let mut m = String::from_str(field_name);
            m.append(" must be a frozenset[str] or UNIVERSAL, got ");
            m.append(t.as_str());
            Err(FieldError::WrongType(m))
        },
    }
}

/// The three checked fields of a new `ObjectMetadata`.
pub type ObjectFields = Result<(FieldValue, FieldValue, FieldValue), FieldError>;

/// Checks the three fields of a new `ObjectMetadata` in order, stopping at the first
/// refused one. Omitted producers and tags are empty sets; omitted consumers are the
/// universal set, no restriction.
pub fn parse_object_metadata(producers: FieldArg, consumers: FieldArg, tags: FieldArg) -> (r: ObjectFields)
    ensures
        ({
            let p = field_view(producers, "producers"@, FieldView::Labels(Seq::empty()));
            let c = field_view(consumers, "consumers"@, FieldView::Universal);
            let t = field_view(tags, "tags"@, FieldView::Labels(Seq::empty()));
            if p.is_error() {
                r matches Err(e) && error_view(e) == p
            } else if c.is_error() {
                r matches Err(e) && error_view(e) == c
            } else if t.is_error() {
                r matches Err(e) && error_view(e) == t
            } else {
                r matches Ok(f) && value_view(f.0) == p && value_view(f.1) == c && value_view(f.2) == t
            }
        }),
{
    let p = match parse_metadata_field(producers, "producers", FieldValue::Labels(Vec::new())) {
        Ok(v) => v,
        Err(e) => {
            return Err(e);
        },
    };
    let c = match parse_metadata_field(consumers, "consumers", FieldValue::Universal) {
        Ok(v) => v,
        Err(e) => {
            return Err(e);
        },
    };
    let t = match parse_metadata_field(tags, "tags", FieldValue::Labels(Vec::new())) {
        Ok(v) => v,
        Err(e) => {
            return Err(e);
        },
    };
    Ok((p, c, t))
}

} // verus!
