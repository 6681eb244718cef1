pub mod addresses;
pub mod bytes_util;
pub mod chunk_info;
pub mod conversation;
pub mod cipher;
pub mod direct_buffer;
pub mod dissector;
pub mod identity;

pub use addresses::{Packet, Sender};
pub use chunk_info::ChunkInfo;
pub use cipher::{Decipher, NonceAddition};
pub use identity::Identity;
pub use direct_buffer::{DecryptError, DirectBuffer};
pub use conversation::{ConnectionMessage, ConsumeResult, Conversation};
pub use dissector::{ConversationData, Storage, TezosDissector};
