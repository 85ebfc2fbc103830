pub mod text;
pub mod keymap;
pub mod trainz;
pub mod model;
pub mod route;
pub mod decode;
pub mod paths;
pub mod order;
pub mod detect;
pub mod scan;
pub mod stf;
pub mod consist;
pub mod compose;
pub mod importer;
pub mod openbve;
pub mod msts;
pub mod bve;
pub mod track_csv;
pub mod pat;
pub mod report;
pub mod tdb;
