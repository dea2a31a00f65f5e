//! Options shared between the producer side and its consumers: where in a
//! binary the embossed buffer is stored.

use vstd::prelude::*;

verus! {

/// The section embossed data is stored in when no other is chosen.
pub const DEFAULT_SECTION_NAME: &'static str = ".emboss.meta";

/// The object segment embossed data is stored in when no other is chosen,
/// on targets whose object format groups sections into segments.
pub const DEFAULT_SEGMENT_NAME: &'static str = "__DATA";

/// Where a producer stores one embossed buffer.
#[derive(Clone, Debug)]
pub struct EmbossingOptions {
    /// The section the buffer is written to.
    pub stored_in: String,
    /// The module name under which a public accessor is exported, if any.
    pub export_name: Option<String>,
    /// The segment the section lives in, on targets that use segments.
    pub segment: String,
}

impl Default for EmbossingOptions {
    /// The default choice: the default section in the default segment,
    /// with no exported accessor.
    fn default() -> (r: Self)
        ensures
            r.stored_in@ == DEFAULT_SECTION_NAME@,
            r.export_name is None,
            r.segment@ == DEFAULT_SEGMENT_NAME@,
    {
        EmbossingOptions {
            stored_in: get_default_section_name(),
            export_name: None,
            segment: get_default_segment_name(),
        }
    }
}

/// The default section name as an owned string.
pub fn get_default_section_name() -> (r: String)
    ensures
        r@ == DEFAULT_SECTION_NAME@,
{
    DEFAULT_SECTION_NAME.to_owned()
}

/// The default segment name as an owned string.
pub fn get_default_segment_name() -> (r: String)
    ensures
        r@ == DEFAULT_SEGMENT_NAME@,
{
    DEFAULT_SEGMENT_NAME.to_owned()
}

} // verus!
