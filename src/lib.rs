//! Decoder for the WeeChat relay wire protocol.
//!
//! Raw bytes arrive in chunks of any size; [`stream::StreamDecoder`] cuts
//! them into length-prefixed frames, [`frame`] strips each frame's header and
//! inflates its body, and [`values`] walks the typed value sequence that the
//! body holds, reading each primitive with [`grammar`].
pub mod bytes;
pub mod data;
pub mod errors;
pub mod frame;
pub mod grammar;
pub mod relay;
pub mod stream;
pub mod values;

pub use data::{HdataKey, HdataObject, WeechatData};
pub use errors::{ErrorKind, ErrorRepr, WeechatParseError};
pub use frame::{
    get_compression, get_length, get_message_type, get_raw_data, read_header, Header, WeechatMessage,
};
pub use grammar::{get_element_type, read_type_tag, TypeTag};
pub use stream::StreamDecoder;
pub use values::decode_values;
