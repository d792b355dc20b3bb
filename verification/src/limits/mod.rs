mod nofile_limit;

pub use nofile_limit::{
    FD_RESERVE, NofileLimit, current_nofile_limit, descriptors_needed, must_restore,
    raise_nofile_limit,
};
