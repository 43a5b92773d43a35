pub mod codec;
pub mod models;
pub mod services;

pub use models::Chunk;
pub use models::Document;
pub use services::database::{
    default_app_name, delete_document, get_all_documents, get_db_dir, get_db_path, get_document,
    init_db, insert_document, RepoError, Store, StoreError,
};
