//! Inserting or overwriting one header.

use vstd::prelude::*;

use crate::data::{hdr_put, hdr_put_entries, headers_model, HeaderModel};
use crate::mutations::HeadersMutation;

verus! {

/// Inserts a header, overwriting the value of an existing one of the same name.
#[derive(Debug)]
pub struct AddHeaderMutation {
    pub header_name: String,
    pub header_value: String,
}

impl AddHeaderMutation {
    /// A mutation that sets `name` to `value`.
    pub fn new(name: String, value: String) -> (r: Self)
        ensures
            r.header_name@ == name@,
            r.header_value@ == value@,
    {
        Self { header_name: name, header_value: value }
    }
}

impl HeadersMutation for AddHeaderMutation {
    open spec fn spec_mutate(&self, headers: Seq<HeaderModel>) -> Seq<HeaderModel> {
        hdr_put(headers, (self.header_name@, self.header_value@))
    }

    fn mutate(&self, headers: &mut Vec<(String, String)>) {
        let name = self.header_name.clone();
        let value = self.header_value.clone();
        let mut taken: Vec<(String, String)> = Vec::new();
        core::mem::swap(headers, &mut taken);
        let put = hdr_put_entries(taken, (name, value));
        *headers = put;
    }
}

} // verus!
