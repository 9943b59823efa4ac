pub mod text;
pub mod team_table;
pub mod rankings;
pub mod scraper;
pub mod opr;
pub mod insights;
pub mod database;
pub mod api;
pub mod predictions;
pub mod best_laws;
