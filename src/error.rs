use vstd::prelude::*;

verus! {

/// Why an operation on the table failed.
#[derive(Debug)]
pub enum TableError {
    /// The selection held no source at all.
    NoSources,
    /// A source could not be read or decoded; the reader's words.
    Read(String),
    /// The sources do not share one schema, or a source's rows do not fit its columns.
    Schema,
    /// The filter cannot be evaluated on the chosen column.
    Filter,
}

impl TableError {
    /// A message for a person.
    pub fn message(&self) -> (r: String)
        ensures
            self is Read ==> r@ == self->Read_0@,
            !(self is Read) ==> r@.len() > 0,
    {
        proof {
            reveal_strlit("No files selected. Please select at least one file.");
            reveal_strlit("The files do not share one schema.");
            reveal_strlit("Filter error: this filter does not apply to the column's type.");
        }
        match self {
            TableError::NoSources => "No files selected. Please select at least one file.".to_string(),
            TableError::Read(m) => m.clone(),
            TableError::Schema => String::from_str("The files do not share one schema."),
            TableError::Filter => "Filter error: this filter does not apply to the column's type.".to_string(),
        }
    }
}

} // verus!
