use vstd::prelude::*;

use crate::kv::{decode, decoded, projects_key_text, WireValue};

verus! {

/// `s` with every occurrence of `pat` replaced by `rep`, scanning from the left
/// and never reusing replaced text. An empty pattern changes nothing.
pub open spec fn replace_all(s: Seq<char>, pat: Seq<char>, rep: Seq<char>) -> Seq<char>
    decreases s.len(),
{
    if s.len() == 0 {
        s
    } else if 0 < pat.len() <= s.len() && s.subrange(0, pat.len() as int) == pat {
        rep + replace_all(s.skip(pat.len() as int), pat, rep)
    } else {
        seq![s[0]] + replace_all(s.skip(1), pat, rep)
    }
}

/// Whether `pat` occurs in `s` at position `i`.
fn occurs_at(s: &str, i: usize, pat: &str) -> (r: bool)
    requires
        i <= s@.len(),
    ensures
        r == (pat@.len() <= s@.len() - i && s@.subrange(i as int, i + pat@.len()) == pat@),
{
    let n = s.unicode_len();
    let m = pat.unicode_len();
    if m > n - i {
        return false;
    }
    let mut k: usize = 0;
    while k < m
        invariant
            k <= m,
            m == pat@.len(),
            n == s@.len(),
            i + m <= n,
            forall|j: int| 0 <= j < k ==> s@[i + j] == pat@[j],
        decreases m - k,
    {
        if s.get_char(i + k) != pat.get_char(k) {
            assert(s@.subrange(i as int, i + m)[k as int] != pat@[k as int]);
            return false;
        }
        k = k + 1;
    }
    assert(s@.subrange(i as int, i + m) =~= pat@);
    true
}

/// `s` with every occurrence of `pat` replaced by `rep`, from the left.
pub fn replace_all_in(s: &str, pat: &str, rep: &str) -> (r: String)
    ensures
        r@ == replace_all(s@, pat@, rep@),
{
    let n = s.unicode_len();
    let m = pat.unicode_len();
    let mut out = String::new();
    let mut i: usize = 0;
    assert(s@.skip(0) =~= s@);
    assert(out@ + replace_all(s@, pat@, rep@) =~= replace_all(s@, pat@, rep@));
    while i < n
        invariant
            i <= n,
            n == s@.len(),
            m == pat@.len(),
            out@ + replace_all(s@.skip(i as int), pat@, rep@) == replace_all(s@, pat@, rep@),
        decreases n - i,
    {
        let ghost rest = s@.skip(i as int);
        if m > 0 && occurs_at(s, i, pat) {
            assert(rest.subrange(0, m as int) =~= s@.subrange(i as int, i + m));
            assert(rest.skip(m as int) =~= s@.skip(i + m));
            out.append(rep);
            assert(out@ + replace_all(s@.skip(i + m), pat@, rep@) =~= replace_all(s@, pat@, rep@));
            i = i + m;
        } else {
            proof {
                if 0 < m && m <= rest.len() {
                    assert(rest.subrange(0, m as int) =~= s@.subrange(i as int, i + m));
                }
                assert(rest.skip(1) =~= s@.skip(i + 1));
            }
            let one = s.substring_char(i, i + 1);
            assert(one@ =~= seq![rest[0]]);
            out.append(one);
            assert(out@ + replace_all(s@.skip(i + 1), pat@, rep@) =~= replace_all(s@, pat@, rep@));
            i = i + 1;
        }
    }
    assert(s@.skip(n as int) =~= Seq::<char>::empty());
    assert(out@ + Seq::<char>::empty() =~= out@);
    out
}

/// The name that a key gives an exported file's `{project-name}`: the slug of
/// a time-entry key, `all_projects` for the project list, `general` otherwise.
pub open spec fn project_name_of(key: Seq<char>) -> Seq<char> {
    let prefix = projects_key_text().push('/');
    if key.len() > prefix.len() && key.subrange(0, prefix.len() as int) == prefix {
        key.skip(prefix.len() as int)
    } else if key == projects_key_text() {
        "all_projects"@
    } else {
        "general"@
    }
}

pub fn extract_project_name_from_key(key: &str) -> (r: String)
    ensures
        r@ == project_name_of(key@),
{
    proof {
        reveal_strlit("projects/");
        reveal_strlit("projects");
        assert("projects/"@ =~= projects_key_text().push('/'));
        assert("projects"@ =~= projects_key_text());
    }
    let n = key.unicode_len();
    if n > 9 && occurs_at(key, 0, "projects/") {
        return String::from_str(key.substring_char(9, n));
    }
    if String::from_str(key) == String::from_str("projects") {
        String::from_str("all_projects")
    } else {
        String::from_str("general")
    }
}

/// The file name that `template` gives the key `key` in an export made at
/// `timestamp`: `{key-name}` becomes the key with `/` turned into `_`, then
/// `{timestamp}` the timestamp, then `{project-name}` the key's project name.
pub open spec fn file_name(template: Seq<char>, key: Seq<char>, timestamp: Seq<char>) -> Seq<char> {
    replace_all(
        replace_all(
            replace_all(template, "{key-name}"@, replace_all(key, "/"@, "_"@)),
            "{timestamp}"@,
            timestamp,
        ),
        "{project-name}"@,
        project_name_of(key),
    )
}

pub fn generate_filename_from_template(template: &str, key: &str, timestamp: &str) -> (r: String)
    ensures
        r@ == file_name(template@, key@, timestamp@),
{
    let safe_key = replace_all_in(key, "/", "_");
    let a = replace_all_in(template, "{key-name}", safe_key.as_str());
    let b = replace_all_in(a.as_str(), "{timestamp}", timestamp);
    let project = extract_project_name_from_key(key);
    replace_all_in(b.as_str(), "{project-name}", project.as_str())
}

/// The document that an export writes for a stored value: a string holding
/// JSON is that document, any other string is itself as a JSON string, and a
/// value that is not a string exports as an empty object.
pub open spec fn exported(w: WireValue) -> Seq<char> {
    match w {
        WireValue::Text(_) => decoded(w),
        WireValue::Json(_) => "{}"@,
    }
}

pub fn export_document(w: &WireValue) -> (r: String)
    ensures
        r@ == exported(*w),
{
    match w {
        WireValue::Text(_) => decode(w),
        WireValue::Json(_) => String::from_str("{}"),
    }
}

} // verus!
