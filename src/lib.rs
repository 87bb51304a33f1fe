//! Backend logic of a resource manager: resource manifests, category
//! template files, ordering, archive import planning and the decoding of
//! streamed chat-completion responses.

pub mod ai;
pub mod import_plan;
pub mod json;
pub mod json_file_ops;
pub mod resource_ops;
pub mod scan;
pub mod state;
pub mod stream;
pub mod text;
pub mod types;
