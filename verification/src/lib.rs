//! Lossless model of Bethesda plugin files (ESP/ESM/ESL) with a verified
//! reader, surgical writer, load-order resolution and conflict analysis.

pub mod asset_scan;
pub mod bin_packer;
pub mod interface;
pub mod bytes;
pub mod cleaner;
pub mod compress;
pub mod conflicts;
pub mod dialect;
pub mod element;
pub mod format;
pub mod formid;
pub mod reader;
pub mod refby;
pub mod record;
pub mod reference_scanner;
pub mod roundtrip;
pub mod signature;
pub mod subrecord;
pub mod terrain;
pub mod text;
pub mod tree_atlas;
pub mod trees;
pub mod writer;
pub mod games;
pub mod group;
pub mod lines;
pub mod mo2;
pub mod load_order;
pub mod lod;
pub mod lod_options;
pub mod nif;
pub mod paths;
pub mod plugin;
