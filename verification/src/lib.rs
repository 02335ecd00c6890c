pub mod sync;
pub mod text;
pub mod paths;
pub mod decimal;
pub mod imaging;
pub mod storage;
pub mod matrix;
pub mod crypt;
pub mod downloader;
pub mod order;
pub mod futures;
