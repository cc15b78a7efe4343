pub mod dl_utils;
pub mod err;
pub mod existing_data_utils;
pub mod mvn_repo_util;
pub mod utils;
