pub mod data_series;
pub mod label_order;
pub mod rendering;
pub mod series_index;
pub mod series_laws;
pub mod series_model;
pub mod sorting;
pub mod value_cell;
