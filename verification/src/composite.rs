//! The composite nodes: control-flow combinators over child nodes.

mod inverter;
mod repeater;
mod selector;
mod sequence;
mod succeeder;

pub use inverter::Inverter;
pub use repeater::LimitedRepeated;
pub use repeater::Repeated;
pub use repeater::RepeatedUntilFailure;
pub use selector::Selector;
pub use selector::SelectorResume;
pub use sequence::Sequence;
pub use sequence::SequenceResume;
pub use succeeder::Succeeder;
