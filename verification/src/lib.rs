//! Core of a DNS-resolver latency benchmark.
//!
//! The library holds the verified logic of the benchmark: the configuration
//! value, the work queue a server's workers drain, the failure-sentinel
//! policy for lookup samples, the aggregation of raw samples into
//! `{min, max, average}` statistics, and the sorting and text rendering of
//! the final comparison table. Network resolution, threads and printing live
//! outside the library and hand it plain values.

use vstd::prelude::*;

pub mod config;
pub mod engine;
pub mod report;
pub mod stats;
pub mod table;
pub mod text;

verus! {

/// One name server under test: a display name and its endpoint addresses.
/// Only the first endpoint is used for lookups; the rest are display-only.
#[derive(Debug)]
pub struct DNS {
    pub name: String,
    pub ips: Vec<String>,
}

/// Mathematical image of a `DNS` value: the name and the endpoints as
/// character sequences.
#[verifier::ext_equal]
pub struct DNSView {
    pub name: Seq<char>,
    pub ips: Seq<Seq<char>>,
}

impl View for DNS {
    type V = DNSView;

    open spec fn view(&self) -> DNSView {
        DNSView { name: self.name@, ips: self.ips.deep_view() }
    }
}

impl DeepView for DNS {
    type V = DNSView;

    open spec fn deep_view(&self) -> DNSView {
        self@
    }
}

impl Clone for DNS {
    fn clone(&self) -> (res: Self)
        ensures
            res@ == self@,
    {
        let res = DNS { name: self.name.clone(), ips: self.ips.clone() };
        proof {
            assert forall|i: int| 0 <= i < self.ips@.len() implies res.ips@[i]@
                == self.ips@[i]@ by {
                assert(cloned::<String>(self.ips@[i], res.ips@[i]));
            }
            assert(res.ips.deep_view() =~= self.ips.deep_view());
        }
        res
    }
}

/// The field of the comparison table that the rows are ordered by.
#[derive(Clone, Copy, Debug, PartialEq, Eq, Structural)]
pub enum SortType {
    Average,
    Minimum,
    Maximum,
}

} // verus!
