//! The settings a run is given: where the service under test listens.
use vstd::prelude::*;
use crate::text::{chars_to_string, nat_digits, push_str, push_u64};

verus! {

/// The address of the service under test.
pub struct Config {
    pub ip: String,
    pub port: u16,
}

impl Config {
    /// `ip:port`.
    pub fn get_target_address(&self) -> (r: String)
        ensures
            r@ == self.ip@ + seq![':'] + nat_digits(self.port as nat),
    {
        let mut out: Vec<char> = Vec::new();
        push_str(&mut out, self.ip.as_str());
        out.push(':');
        push_u64(&mut out, self.port as u64);
        assert(out@ =~= self.ip@ + seq![':'] + nat_digits(self.port as nat));
        chars_to_string(&out)
    }
}

} // verus!
