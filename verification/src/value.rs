//! The plain values that the store holds.
//!
//! Resources, components and event payloads are kept as tagged values,
//! so that one store can hold state of every registered kind and a
//! type-erased boundary can address it by a stable identifier alone.

use crate::schedules::MainScheduleOrder;
use vstd::prelude::*;

verus! {

/// A plain, tagged value: what a resource, a component or an event
/// payload holds.
#[derive(Clone, Debug, PartialEq, Eq)]
pub enum Value {
    /// A marker with no data, for tag-like components.
    Unit,
    /// A boolean.
    Flag(bool),
    /// A signed number.
    Num(i64),
    /// A piece of text.
    Text(String),
    /// The per-tick order of schedule labels; the shape of the
    /// schedule-order resource that the driver reads.
    Order(MainScheduleOrder),
}

} // verus!
