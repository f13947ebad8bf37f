//! A small relational storage engine: schema definitions, in-memory data values,
//! the on-page record format, slotted pages, B+tree leaf nodes, the clock evictor
//! and the buffer frames, each with a verified contract.

pub mod byte_codec;
pub mod text;
pub mod schema_error;
pub mod primitive_data_type;
pub mod column_definition;
pub mod constraint;
pub mod table_definition;
pub mod page;
pub mod page_id;
pub mod slot;
pub mod storage_error;
pub mod serialization_error;
pub mod bpm_error;
pub mod slotted_page_view;
pub mod order;
pub mod ordered_float;
pub mod decimal;
pub mod data_value;
pub mod key;
pub mod record;
pub mod record_format;
pub mod record_serializer;
pub mod record_laws;
pub mod frame;
pub mod page_guard;
pub mod evictor;
pub mod btree_ops;
pub mod leaf_node_view;
pub mod btree_node;
pub mod buffer_pool;
pub mod disk_layout;
pub mod order_laws;
pub mod leaf_laws;
pub mod page_laws;
pub mod value_laws;
pub mod type_name_laws;
pub mod schema_laws;
