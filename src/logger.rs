use vstd::prelude::*;

verus! {

/// `name` inside the directory `dir`.
pub open spec fn joined(dir: Seq<char>, name: Seq<char>) -> Seq<char> {
    if dir.len() == 0 || dir.last() == '/' {
        dir + name
    } else {
        dir.push('/') + name
    }
}

fn join_path(dir: &str, name: &str) -> (r: String)
    ensures
        r@ == joined(dir@, name@),
{
    let n = dir.unicode_len();
    if n == 0 || dir.get_char(n - 1) == '/' {
        String::from_str(dir).concat(name)
    } else {
        proof {
            reveal_strlit("/");
            assert(dir@ + "/"@ + name@ =~= dir@.push('/') + name@);
        }
        String::from_str(dir).concat("/").concat(name)
    }
}

/// The log file of the tool.
pub struct Logger {
    log_path: String,
}

impl Logger {
    pub closed spec fn path(&self) -> Seq<char> {
        self.log_path@
    }

    /// The log file for a run in `current_dir`: in development (`in_development`:
    /// a Cargo manifest lies in that directory) `timetracker.log` there;
    /// otherwise `.timetracker.log` in the home directory, or `timetracker.log`
    /// in `current_dir` when there is no home directory.
    pub fn new(current_dir: &str, in_development: bool, home_dir: Option<&str>) -> (r: Logger)
        ensures
            r.path() == if in_development {
                joined(current_dir@, "timetracker.log"@)
            } else {
                match home_dir {
                    Some(h) => joined(h@, ".timetracker.log"@),
                    None => joined(current_dir@, "timetracker.log"@),
                }
            },
    {
        let log_path = if in_development {
            join_path(current_dir, "timetracker.log")
        } else {
            match home_dir {
                Some(h) => join_path(h, ".timetracker.log"),
                None => join_path(current_dir, "timetracker.log"),
            }
        };
        Logger { log_path }
    }

    pub fn get_current_log_path(&self) -> (r: &String)
        ensures
            r@ == self.path(),
    {
        &self.log_path
    }

    /// The line written for `message` at the instant `stamp`: `[stamp] message`
    /// and a line break.
    pub fn entry_line(stamp: &str, message: &str) -> (r: String)
        ensures
            r@ == "["@ + stamp@ + "] "@ + message@ + "\n"@,
    {
        String::from_str("[").concat(stamp).concat("] ").concat(message).concat("\n")
    }
}

} // verus!
