//! One end of a port-proxy rule.

use crate::text::{i64_to_string, int_to_dec, push_str};
use vstd::prelude::*;

verus! {

/// An address and a port.
#[derive(Debug, Clone, Hash)]
pub struct Ipv {
    pub address: String,
    pub port: i64,
}

impl View for Ipv {
    type V = (Seq<char>, int);

    open spec fn view(&self) -> (Seq<char>, int) {
        (self.address@, self.port as int)
    }
}

impl Ipv {
    pub fn new(address: &str, port: i64) -> (r: Ipv)
        ensures
            r@ == (address@, port as int),
    {
        Ipv { address: address.to_string(), port }
    }

    /// `地址:<address>,端口:<port>`.
    pub fn to_string(&self) -> (r: String)
        ensures
            r@ == "地址:"@ + self.address@ + ",端口:"@ + int_to_dec(self.port as int),
    {
        let mut out = String::new();
        push_str(&mut out, "地址:");
        push_str(&mut out, self.address.as_str());
        push_str(&mut out, ",端口:");
        push_str(&mut out, i64_to_string(self.port).as_str());
        out
    }
}

} // verus!
