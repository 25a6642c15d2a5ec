//! Route path compilation: turn a path pattern such as `/user/:id` into an
//! anchored regex text with one named capture per `:name` parameter, every
//! other character escaped where the regex language gives it a meaning.
//! Matching itself is the regex engine's work, behind a trusted boundary.

use vstd::prelude::*;
use vstd::string::StringExecFns;
use vstd::string::StrSliceExecFns;

use crate::query::name_run_len;
use crate::strutil::contains_seq;
use crate::strutil::contains_str;
use crate::strutil::push_char;

verus! {

/// Errors of path compilation and matching.
#[derive(Clone, Copy, PartialEq, Eq, Structural, Debug)]
pub enum PathError {
    /// The path does not start with '/'.
    NotAbsolute,
    /// The path contains the invalid run "::" or "//".
    InvalidPattern,
    /// A ':' is not followed by a parameter name.
    EmptyParamName,
    /// The path declares more than twenty parameters.
    TooManyParams,
    /// The regex engine rejected the pattern.
    RegexRejected,
}

/// Characters the regex language gives a meaning, escaped with a backslash.
pub open spec fn is_meta(c: char) -> bool {
    c == '.' || c == '+' || c == '*' || c == '?' || c == '(' || c == ')' || c == '[' || c == ']'
        || c == '{' || c == '}' || c == '|' || c == '^' || c == '$' || c == '\\'
}

/// The compiled body for the text `s` with `params` parameters already
/// seen: each `:name` becomes a named capture `(?P<name>[^/]+)`, metas are
/// escaped, other characters pass through. Fails on an unnamed ':' or on
/// more than twenty parameters.
pub open spec fn spec_compile_body(s: Seq<char>, params: int) -> Result<
    (Seq<char>, int),
    PathError,
>
    decreases s.len(),
    via spec_compile_body_decreases
{
    if s.len() == 0 {
        Ok((Seq::<char>::empty(), params))
    } else if s[0] == ':' {
        let k = name_run_len(s.drop_first());
        if k == 0 {
            Err(PathError::EmptyParamName)
        } else if params >= 20 {
            Err(PathError::TooManyParams)
        } else {
            match spec_compile_body(s.skip(1 + k as int), params + 1) {
                Ok(r) => Ok(
                    ("(?P<"@ + s.subrange(1, 1 + k as int) + ">[^/]+)"@ + r.0, r.1),
                ),
                Err(e) => Err(e),
            }
        }
    } else {
        match spec_compile_body(s.drop_first(), params) {
            Ok(r) => Ok(
                (
                    (if is_meta(s[0]) {
                        seq!['\\', s[0]]
                    } else {
                        seq![s[0]]
                    }) + r.0,
                    r.1,
                ),
            ),
            Err(e) => Err(e),
        }
    }
}

proof fn lemma_compile_body_errors(s: Seq<char>, params: int)
    ensures
        match spec_compile_body(s, params) {
            Ok(_) => true,
            Err(e) => e == PathError::EmptyParamName || e == PathError::TooManyParams,
        },
    decreases s.len(),
{
    if s.len() > 0 {
        if s[0] == ':' {
            let k = name_run_len(s.drop_first());
            crate::query::lemma_name_run_len_le(s.drop_first());
            if k > 0 && params < 20 {
                lemma_compile_body_errors(s.skip(1 + k as int), params + 1);
            }
        } else {
            lemma_compile_body_errors(s.drop_first(), params);
        }
    }
}

#[via_fn]
proof fn spec_compile_body_decreases(s: Seq<char>, params: int) {
    if s.len() > 0 && s[0] == ':' {
        crate::query::lemma_name_run_len_le(s.drop_first());
    }
}

#[verifier::external_type_specification]
#[verifier::external_body]
pub struct ExRegex(regex::Regex);

/// Relies on regex::Regex::new: the engine decides whether a pattern
/// belongs to its language.
#[verifier::external_body]
fn regex_new(pattern: &str) -> (r: Option<regex::Regex>) {
    regex::Regex::new(pattern).ok()
}

/// Relies on Regex::captures and the capture accessors: the engine decides
/// the match; each named group's capture is handed out as a (name, text)
/// pair in the engine's group order, or nothing when the path does not
/// match.
#[verifier::external_body]
fn regex_captures(re: &regex::Regex, path: &str) -> (r: Option<Vec<(String, String)>>) {
    let caps = match re.captures(path) {
        Some(c) => c,
        None => return None,
    };
    let mut params = Vec::new();
    for name in re.capture_names().flatten() {
        if let Some(m) = caps.name(name) {
            params.push((name.to_string(), m.as_str().to_string()));
        }
    }
    Some(params)
}

fn compile_from(path: &str, pos: usize, params: usize) -> (r: Result<(String, usize), PathError>)
    requires
        pos <= path@.len(),
        params <= 20,
    ensures
        match spec_compile_body(path@.skip(pos as int), params as int) {
            Ok(p) => r matches Ok(q) && q.0@ == p.0 && q.1 as int == p.1 && q.1 <= 20 + (
            path@.len() - pos),
            Err(e) => r matches Err(e2) && e2 == e,
        },
    decreases path@.len() - pos,
{
    let n = path.unicode_len();
    let ghost s = path@.skip(pos as int);
    if pos == n {
        return Ok((String::new(), params));
    }
    let c = path.get_char(pos);
    proof {
        assert(s[0] == path@[pos as int]);
        assert(s.drop_first() =~= path@.skip(pos as int + 1));
    }
    if c == ':' {
        let e = crate::query::name_run_end(path, pos + 1, n);
        proof {
            assert(name_run_len(s.drop_first()) == e - (pos + 1));
        }
        if e == pos + 1 {
            return Err(PathError::EmptyParamName);
        }
        if params >= 20 {
            return Err(PathError::TooManyParams);
        }
        let name = path.substring_char(pos + 1, e);
        proof {
            assert(name@ =~= s.subrange(1, 1 + (e - pos - 1) as int));
            assert(s.skip(1 + (e - pos - 1) as int) =~= path@.skip(e as int));
        }
        match compile_from(path, e, params + 1) {
            Err(err) => Err(err),
            Ok((rest, count)) => {
                let mut out = String::new();
                out.append("(?P<");
                out.append(name);
                out.append(">[^/]+)");
                let res = out.concat(rest.as_str());
                proof {
                    assert(res@ == (("(?P<"@ + name@) + ">[^/]+)"@) + rest@);
                    assert(res@ =~= "(?P<"@ + name@ + ">[^/]+)"@ + rest@);
                }
                Ok((res, count))
            },
        }
    } else {
        match compile_from(path, pos + 1, params) {
            Err(err) => Err(err),
            Ok((rest, count)) => {
                let mut out = String::new();
                let meta = c == '.' || c == '+' || c == '*' || c == '?' || c == '(' || c == ')'
                    || c == '[' || c == ']' || c == '{' || c == '}' || c == '|' || c == '^' || c
                    == '$' || c == '\\';
                if meta {
                    push_char(&mut out, '\\');
                }
                push_char(&mut out, c);
                let res = out.concat(rest.as_str());
                proof {
                    if is_meta(s[0]) {
                        assert(res@ =~= seq!['\\', s[0]] + rest@);
                    } else {
                        assert(res@ =~= seq![s[0]] + rest@);
                    }
                }
                Ok((res, count))
            },
        }
    }
}

/// Compile a route path into an anchored regex text with named captures:
/// `/user/:id` becomes `^/user/(?P<id>[^/]+)$`. The path must start with
/// '/', must not contain "::" or "//", each ':' must be followed by a
/// name, at most twenty parameters are allowed, and the regex engine must
/// accept the final pattern.
pub fn compile_path(path: &str) -> (r: Result<String, PathError>)
    ensures
        ({
            let abs = path@.len() >= 1 && path@[0] == '/';
            let clean = !contains_seq(path@, "::"@) && !contains_seq(path@, "//"@);
            match r {
                Ok(s) => abs && clean && (match spec_compile_body(path@, 0) {
                    Ok(b) => s@ == seq!['^'] + b.0 + seq!['$'],
                    Err(_) => false,
                }),
                Err(e) => match e {
                    PathError::NotAbsolute => !abs,
                    PathError::InvalidPattern => abs && !clean,
                    PathError::EmptyParamName => abs && clean && spec_compile_body(path@, 0)
                        == Err::<(Seq<char>, int), PathError>(PathError::EmptyParamName),
                    PathError::TooManyParams => abs && clean && spec_compile_body(path@, 0)
                        == Err::<(Seq<char>, int), PathError>(PathError::TooManyParams),
                    PathError::RegexRejected => abs && clean && spec_compile_body(path@, 0) is Ok,
                },
            }
        }),
{
    if path.unicode_len() == 0 || path.get_char(0) != '/' {
        return Err(PathError::NotAbsolute);
    }
    if contains_str(path, "::") || contains_str(path, "//") {
        return Err(PathError::InvalidPattern);
    }
    proof {
        assert(path@.skip(0) =~= path@);
    }
    match compile_from(path, 0, 0) {
        Err(e) => {
            proof {
                lemma_compile_body_errors(path@, 0);
            }
            Err(e)
        },
        Ok((body, _count)) => {
            let mut out = String::new();
            push_char(&mut out, '^');
            out.append(body.as_str());
            push_char(&mut out, '$');
            proof {
                assert(out@ =~= seq!['^'] + body@ + seq!['$']);
            }
            match regex_new(out.as_str()) {
                Some(_) => Ok(out),
                None => Err(PathError::RegexRejected),
            }
        },
    }
}

/// Match `path` against a compiled pattern with named captures: the
/// captured parameters as (name, text) pairs, `Ok(None)` when the path
/// does not match, and `RegexRejected` when the pattern is invalid. The
/// regex engine decides all three.
pub fn match_path(pattern: &str, path: &str) -> (r: Result<
    Option<Vec<(String, String)>>,
    PathError,
>) {
    match regex_new(pattern) {
        None => Err(PathError::RegexRejected),
        Some(re) => Ok(regex_captures(&re, path)),
    }
}

} // verus!
