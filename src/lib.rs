//! Named, typed collections of records that persist to a self-describing
//! container, either as JSON-like text or as MessagePack bytes.
//!
//! Records implement [`Serializable`] and, where they can be read back,
//! [`Deserializable`]. A [`Collection`] holds records of one type; a [`Tree`]
//! holds metadata fields and [`Branch`]es, each a Collection under a subtype
//! tag from a closed set; a [`FeedTree`] holds metadata fields and feeds,
//! Collections of one fixed type that may grow after creation.
//!
//! Floats are held as their IEEE-754 bit patterns. The text form writes and
//! reads each float through functions that the caller passes in (`show` and
//! `read`), since turning a float into decimal text and back is
//! floating-point work; the contracts speak of the spec functions those
//! closures determine.
pub mod errors;
pub mod msgpack;
pub mod text;
pub mod codec;
pub mod records;
pub mod collection;
pub mod branch;
pub mod keyed;
pub mod tree;
pub mod feedtree;
pub mod laws;
pub mod textlaws;

pub use errors::CalcifyError;
pub use codec::{Deserializable, Serializable};
pub use records::{Bin, FourMat, FourVec, Point, PointBin, Real, ThreeMat, ThreeVec};
pub use collection::Collection;
pub use branch::{is_valid_subtype, tag_from_str, Branch, Tag};
pub use tree::Tree;
pub use feedtree::FeedTree;
