pub mod chunk;
pub mod codec;
pub mod flow;
pub mod table;
pub mod wire;

pub use chunk::{concat_chunks, split_chunks};
pub use codec::{
    answer_records_payload, decode_answer, decode_query, encode_answer_with_id, encode_as_answer,
    encode_as_query, encode_query_with_id, query_names_payload, LABEL_CHUNK, TXT_CHUNK,
};
pub use flow::{Flow, FlowAction, FlowEvent, Role};
pub use table::{Dispatch, FlowTable, PeerAddress};
