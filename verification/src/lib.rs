use vstd::prelude::*;

pub mod text;
pub mod naming;
pub mod doc;
pub mod board;
pub mod yaml_io;
pub mod order;
pub mod state;
pub mod probes;
pub mod analog;
pub mod scope_run;
pub mod bundles;
pub mod metrics;
pub mod canvas;
pub mod selection;
pub mod forms;
pub mod run;
pub mod snapshot;
pub mod layout;
pub mod labels;

verus! {

} // verus!
