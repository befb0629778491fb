//! The ISO 9660 filesystem with its XA and Joliet extensions.
pub mod acceptance_laws;
pub mod area_laws;
pub mod description;
pub mod descriptor;
pub mod descriptor_laws;
pub mod descriptor_reading_laws;
pub mod descriptor_write;
pub mod directory;
pub mod directory_laws;
pub mod fields;
pub mod file_area_laws;
pub mod file_order_laws;
pub mod framing_laws;
pub mod gap_laws;
pub mod image_laws;
pub mod joliet;
pub mod joliet_acceptance_laws;
pub mod joliet_descriptor_laws;
pub mod joliet_laws;
pub mod joliet_layout_laws;
pub mod joliet_parse;
pub mod joliet_parse_laws;
pub mod joliet_rebuilding_laws;
pub mod joliet_retelling_laws;
pub mod joliet_walk;
pub mod layout;
pub mod layout_laws;
pub mod metadata;
pub mod metadata_laws;
pub mod name_laws;
pub mod order;
pub mod order_laws;
pub mod packing_laws;
pub mod padding_laws;
pub mod parse;
pub mod parse_laws;
pub mod path_table;
pub mod path_table_laws;
pub mod paths;
pub mod placing;
pub mod placing_laws;
pub mod read;
pub mod reading_laws;
pub mod plain_laws;
pub mod rebuilding_laws;
pub mod record;
pub mod record_laws;
pub mod relabel_laws;
pub mod retelling_laws;
pub mod retold_layout_laws;
pub mod selection_laws;
pub mod spelling_laws;
pub mod subheaders;
pub mod table_laws;
pub mod time;
pub mod time_laws;
pub mod time_spelling_laws;
pub mod told_checks_laws;
pub mod told_entries_laws;
pub mod tree;
pub mod tree_walk_laws;
pub mod validate;
pub mod walk;
pub mod walk_laws;
