//! Where the language server's telemetry goes: the state directory, the
//! monthly NDJSON file, and the line a record takes.

use vstd::prelude::*;

verus! {

/// `comp` appended to the path `base` as `PathBuf::join` does on Unix for a
/// relative component: with a `/` between them unless `base` is empty or
/// already ends with one.
pub open spec fn join_path(base: Seq<char>, comp: Seq<char>) -> Seq<char> {
    if base.len() == 0 || base.last() == '/' {
        base + comp
    } else {
        base + "/"@ + comp
    }
}

/// Calls `Path::join` on Unix paths; `comp` is relative (does not start with
/// `/`).
#[verifier::external_body]
fn path_join(base: &str, comp: &str) -> (r: String)
    requires
        comp@.len() > 0 ==> comp@[0] != '/',
    ensures
        r@ == join_path(base@, comp@),
{
    std::path::Path::new(base).join(comp).to_string_lossy().into_owned()
}

/// Calls `dirs::state_dir`; depends on the environment and is not stated.
#[verifier::external_body]
pub fn state_dir() -> (r: Option<String>) {
    dirs::state_dir().map(|p| p.to_string_lossy().into_owned())
}

/// Calls `dirs::data_local_dir`; depends on the environment and is not stated.
#[verifier::external_body]
pub fn data_local_dir() -> (r: Option<String>) {
    dirs::data_local_dir().map(|p| p.to_string_lossy().into_owned())
}

/// Calls `dirs::home_dir`; depends on the environment and is not stated.
#[verifier::external_body]
pub fn home_dir() -> (r: Option<String>) {
    dirs::home_dir().map(|p| p.to_string_lossy().into_owned())
}

/// The telemetry directory given the platform directories: the state
/// directory, else `state` under the local data directory, else
/// `.local/state` under the home directory; then `clearhead/telemetry` under
/// it. `None` when not even a home directory is known.
pub open spec fn telemetry_dir_of(state: Option<Seq<char>>, data_local: Option<Seq<char>>, home: Option<Seq<char>>) -> Option<Seq<char>> {
    let base = match state {
        Some(s) => Some(s),
        None => match data_local {
            Some(d) => Some(join_path(d, "state"@)),
            None => match home {
                Some(h) => Some(join_path(join_path(h, ".local"@), "state"@)),
                None => None,
            },
        },
    };
    match base {
        Some(b) => Some(join_path(join_path(b, "clearhead"@), "telemetry"@)),
        None => None,
    }
}

/// The view of an optional string.
pub open spec fn opt_text(o: Option<String>) -> Option<Seq<char>> {
    match o {
        Some(s) => Some(s@),
        None => None,
    }
}

/// The telemetry directory given the platform directories.
pub fn telemetry_dir_from(state: Option<String>, data_local: Option<String>, home: Option<String>) -> (r: Option<String>)
    ensures
        opt_text(r) == telemetry_dir_of(opt_text(state), opt_text(data_local), opt_text(home)),
{
    proof {
        reveal_strlit("state");
        reveal_strlit(".local");
        reveal_strlit("clearhead");
        reveal_strlit("telemetry");
    }
    let base = match state {
        Some(s) => s,
        None => match data_local {
            Some(d) => path_join(d.as_str(), "state"),
            None => match home {
                Some(h) => {
                    let l = path_join(h.as_str(), ".local");
                    path_join(l.as_str(), "state")
                },
                None => return None,
            },
        },
    };
    let c = path_join(base.as_str(), "clearhead");
    Some(path_join(c.as_str(), "telemetry"))
}

/// The XDG state directory for ClearHead telemetry, from the platform
/// directories of this machine (`None` when no home directory is known).
pub fn get_telemetry_dir() -> (r: Option<String>)
    ensures
        exists|s: Option<Seq<char>>, d: Option<Seq<char>>, h: Option<Seq<char>>|
            opt_text(r) == telemetry_dir_of(s, d, h),
{
    let s = state_dir();
    let d = data_local_dir();
    let h = home_dir();
    let ghost (sv, dv, hv) = (opt_text(s), opt_text(d), opt_text(h));
    let r = telemetry_dir_from(s, d, h);
    assert(opt_text(r) == telemetry_dir_of(sv, dv, hv));
    r
}

/// The name of the telemetry file of the month `year_month` (`YYYY-MM`).
pub open spec fn telemetry_file_name(year_month: Seq<char>) -> Seq<char> {
    "events-"@ + year_month + ".ndjson"@
}

/// The telemetry file of the month `year_month` in directory `dir`.
pub fn telemetry_file(dir: &str, year_month: &str) -> (r: String)
    ensures
        r@ == join_path(dir@, telemetry_file_name(year_month@)),
{
    proof {
        reveal_strlit("events-");
    }
    let mut name = String::from_str("events-");
    name.append(year_month);
    name.append(".ndjson");
    assert(name@[0] == 'e');
    path_join(dir, name.as_str())
}

/// Whether `s` has the shape `%Y-%m`: a year of at least four characters
/// (zero-padded digits, a sign before a year beyond four digits), a hyphen,
/// and the month as two digits from `01` to `12`.
pub open spec fn year_month_shape(s: Seq<char>) -> bool {
    let n = s.len() as int;
    &&& n >= 7
    &&& s[n - 3] == '-'
    &&& ('0' <= s[n - 2] <= '1' && '0' <= s[n - 1] <= '9')
    &&& (s[n - 2] == '0' ==> s[n - 1] != '0')
    &&& (s[n - 2] == '1' ==> '0' <= s[n - 1] <= '2')
}

/// Calls `Utc::now` and formats it as `%Y-%m` (chrono's `%Y` pads the year
/// to four digits, `%m` the month to two). Which month it is depends on the
/// clock and is not stated.
#[verifier::external_body]
pub fn utc_year_month() -> (r: String)
    ensures
        year_month_shape(r@),
{
    chrono::Utc::now().format("%Y-%m").to_string()
}

/// The file the current month's records go to, where a home directory is
/// known.
pub fn get_current_file() -> (r: Option<String>)
    ensures
        r matches Some(f) ==> exists|dir: Seq<char>, ym: Seq<char>|
            year_month_shape(ym) && f@ == #[trigger] join_path(dir, telemetry_file_name(ym)),
{
    let dir = get_telemetry_dir()?;
    let ym = utc_year_month();
    Some(telemetry_file(dir.as_str(), ym.as_str()))
}

/// Writes telemetry records as newline-delimited JSON, one record per line,
/// to the monthly file in the telemetry directory.
pub struct NdjsonEmitter;

impl NdjsonEmitter {
    /// The line a record's JSON text takes in the file.
    pub fn line(&self, json: &str) -> (r: String)
        ensures
            r@ == json@ + "\n"@,
    {
        let mut s = String::from_str(json);
        s.append("\n");
        s
    }
}

} // verus!
