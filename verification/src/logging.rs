//! Where the log goes, and when it is emptied.
use vstd::prelude::*;
use crate::config::opt_text;
use crate::paths::{join, path_join};
use crate::text::owned;

verus! {

/// The size above which the log file is emptied before use, in bytes.
pub const MAX_LOG_BYTES: u64 = 1024 * 1024;

/// Whether a log file of `len` bytes is to be emptied.
pub fn should_truncate(len: u64) -> (r: bool)
    ensures
        r == (len > MAX_LOG_BYTES),
{
    len > MAX_LOG_BYTES
}

/// The directory of the log: `seela` under `$XDG_DATA_HOME`, or under
/// `.local/share` in the home directory (the current directory when there
/// is no home directory).
pub open spec fn log_dir_spec(xdg_data_home: Option<Seq<char>>, home: Option<Seq<char>>) -> Seq<char> {
    let base = match xdg_data_home {
        Some(x) => x,
        None => path_join(
            match home {
                Some(h) => h,
                None => "."@,
            },
            ".local/share"@,
        ),
    };
    path_join(base, "seela"@)
}

/// The directory of the log.
pub fn log_dir(xdg_data_home: Option<String>, home: Option<String>) -> (r: String)
    ensures
        r@ == log_dir_spec(opt_text(xdg_data_home), opt_text(home)),
{
    let base = match xdg_data_home {
        Some(x) => x,
        None => {
            let h = match home {
                Some(h) => h,
                None => owned("."),
            };
            join(h.as_str(), ".local/share")
        },
    };
    join(base.as_str(), "seela")
}

/// The log file in the log directory.
pub fn log_file(dir: &str) -> (r: String)
    ensures
        r@ == path_join(dir@, "seela.log"@),
{
    join(dir, "seela.log")
}

} // verus!
