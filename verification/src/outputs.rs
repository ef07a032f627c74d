//! The output files that a container declares: which files of a job's working directory are
//! outputs, and which of them may be asked for.

use vstd::prelude::*;
use vstd::slice::slice_subrange;
use vstd::utf8::encode_utf8;

use crate::order::reversed;
use crate::order::sorted_by;
use crate::order::stable_sort;
use crate::order::stably_sorted;
use crate::order::take_first;
use crate::order::text_at_most;
use crate::order::text_le;
use crate::order::total_order;
use crate::paths::absolute;
use crate::paths::components;
use crate::paths::is_absolute;
use crate::paths::join_path;
use crate::paths::law_joined_names_lie_in_the_directory;
use crate::paths::lies_under;
use crate::paths::names;
use crate::paths::names_from;
use crate::paths::part_views;
use crate::paths::parts;
use crate::paths::parts_begin;
use crate::paths::path_begins;
use crate::paths::path_join;
use crate::paths::plain_name;
use crate::paths::Part;
use crate::paths::PathPart;
use crate::pieces::join;
use crate::pieces::joined;
use crate::pieces::split_char;
use crate::pieces::split_on;
use crate::text::drop_trailing;
use crate::text::ends_with;
use crate::text::has_prefix;
use crate::text::has_suffix;
use crate::text::optional_text;
use crate::text::skip_chars;
use crate::text::starts_with;
use crate::text::str_eq;
use crate::text::texts;
use crate::text::trim_end_char;

verus! {

pub const STAR: u8 = 42;

pub const QUESTION: u8 = 63;

pub const OPEN: u8 = 91;

pub const CLOSE: u8 = 93;

pub const DASH: u8 = 45;

pub const SLASH: u8 = 47;

/// No byte of `t` is a slash.
pub open spec fn no_slash(t: Seq<u8>) -> bool {
    forall|i: int| 0 <= i < t.len() ==> #[trigger] t[i] != SLASH
}

/// The byte belongs to a class such as `a-z_`: it lies in one of its ranges or is one of its
/// single bytes.
pub open spec fn in_class(class: Seq<u8>, b: u8) -> bool
    decreases class.len(),
{
    if class.len() == 0 {
        false
    } else if class.len() > 2 && class[1] == DASH {
        (class[0] <= b && b <= class[2]) || in_class(class.skip(3), b)
    } else {
        class[0] == b || in_class(class.skip(1), b)
    }
}

/// The first position from `from` on that holds a closing bracket.
pub open spec fn close_from(p: Seq<u8>, from: int) -> Option<int>
    decreases p.len() - from,
{
    if from < 0 || from >= p.len() {
        None
    } else if p[from] == CLOSE {
        Some(from)
    } else {
        close_from(p, from + 1)
    }
}

/// The pattern matches the text. A star stands for any bytes but slashes, a question mark for
/// one byte that is no slash, a class in brackets for one byte of the class that is no slash,
/// and any other byte for itself.
pub open spec fn glob(p: Seq<u8>, t: Seq<u8>) -> bool
    decreases p.len(),
{
    if p.len() == 0 {
        t.len() == 0
    } else if p[0] == STAR {
        exists|k: int|
            0 <= k <= t.len() && no_slash(#[trigger] t.take(k)) && glob(p.skip(1), t.skip(k))
    } else if t.len() == 0 {
        false
    } else if p[0] == QUESTION {
        t[0] != SLASH && glob(p.skip(1), t.skip(1))
    } else if p[0] == OPEN {
        match close_from(p, 0) {
            Some(end) => t[0] != SLASH && 1 < end < p.len() && in_class(p.subrange(1, end), t[0])
                && glob(p.skip(end + 1), t.skip(1)),
            None => false,
        }
    } else {
        p[0] == t[0] && glob(p.skip(1), t.skip(1))
    }
}

/// A star matches here if it stands for nothing, or takes one byte and matches after it.
proof fn lemma_star(p: Seq<u8>, t: Seq<u8>)
    requires
        p.len() > 0,
        p[0] == STAR,
    ensures
        glob(p, t) == (glob(p.skip(1), t) || (t.len() > 0 && t[0] != SLASH && glob(p, t.skip(1)))),
{
    assert(t.skip(0) =~= t);
    if glob(p.skip(1), t) {
        assert(no_slash(t.take(0)));
        assert(glob(p.skip(1), t.skip(0)));
    }
    if t.len() > 0 && t[0] != SLASH && glob(p, t.skip(1)) {
        let rest = t.skip(1);
        let k = choose|k: int|
            0 <= k <= rest.len() && no_slash(#[trigger] rest.take(k)) && glob(
                p.skip(1),
                rest.skip(k),
            );
        assert(rest.skip(k) =~= t.skip(k + 1));
        assert forall|i: int| 0 <= i < k + 1 implies #[trigger] t.take(k + 1)[i] != SLASH by {
            if i > 0 {
                assert(rest.take(k)[i - 1] == t.take(k + 1)[i]);
            }
        }
        assert(no_slash(t.take(k + 1)));
        assert(glob(p.skip(1), t.skip(k + 1)));
    }
    if glob(p, t) {
        let k = choose|k: int|
            0 <= k <= t.len() && no_slash(#[trigger] t.take(k)) && glob(p.skip(1), t.skip(k));
        if k > 0 {
            let rest = t.skip(1);
            assert(t.take(k)[0] == t[0]);
            assert(rest.skip(k - 1) =~= t.skip(k));
            assert forall|i: int| 0 <= i < k - 1 implies #[trigger] rest.take(k - 1)[i]
                != SLASH by {
                assert(rest.take(k - 1)[i] == t.take(k)[i + 1]);
            }
            assert(no_slash(rest.take(k - 1)));
            assert(glob(p.skip(1), rest.skip(k - 1)));
        }
    }
}

fn tail<'a>(s: &'a [u8], from: usize) -> (r: &'a [u8])
    requires
        from <= s@.len(),
    ensures
        r@ == s@.skip(from as int),
{
    assert(s@.skip(from as int) =~= s@.subrange(from as int, s@.len() as int));
    slice_subrange(s, from, s.len())
}

fn class_holds(class: &[u8], b: u8) -> (r: bool)
    ensures
        r == in_class(class@, b),
{
    let mut matched: bool = false;
    let mut i: usize = 0;
    let n: usize = class.len();
    assert(class@.skip(0) =~= class@);
    while i < n
        invariant
            i <= n,
            n == class@.len(),
            in_class(class@, b) == (matched || in_class(class@.skip(i as int), b)),
        decreases n - i,
    {
        let ghost rest = class@.skip(i as int);
        if n - i > 2 && class[i + 1] == DASH {
            if class[i] <= b && b <= class[i + 2] {
                matched = true;
            }
            assert(rest.skip(3) =~= class@.skip(i + 3));
            i = i + 3;
        } else {
            if class[i] == b {
                matched = true;
            }
            assert(rest.skip(1) =~= class@.skip(i + 1));
            i = i + 1;
        }
    }
    matched
}

fn find_close(p: &[u8]) -> (r: Option<usize>)
    ensures
        match close_from(p@, 0) {
            Some(i) => r is Some && r->0 == i && i < p@.len(),
            None => r is None,
        },
{
    let mut i: usize = 0;
    while i < p.len()
        invariant
            i <= p@.len(),
            close_from(p@, 0) == close_from(p@, i as int),
        decreases p@.len() - i,
    {
        if p[i] == CLOSE {
            return Some(i);
        }
        i = i + 1;
    }
    None
}

/// The pattern starts with a class that takes the first byte of the text.
pub open spec fn class_takes(p: Seq<u8>, t: Seq<u8>) -> Option<int> {
    match close_from(p, 0) {
        Some(end) => if t.len() > 0 && t[0] != SLASH && 1 < end < p.len() && in_class(
            p.subrange(1, end),
            t[0],
        ) {
            Some(end)
        } else {
            None
        },
        None => None,
    }
}

/// What is left of the pattern and of the text after a class and the byte that it takes.
pub fn match_char_class<'a>(pattern: &'a [u8], text: &'a [u8]) -> (r: Option<(&'a [u8], &'a [u8])>)
    ensures
        match class_takes(pattern@, text@) {
            Some(end) => r matches Some(q) && q.0@ == pattern@.skip(end + 1) && q.1@
                == text@.skip(1),
            None => r is None,
        },
{
    if text.len() == 0 || text[0] == SLASH {
        return None;
    }
    let n: usize = pattern.len();
    let end: usize = match find_close(pattern) {
        Some(end) => end,
        None => {
            return None;
        },
    };
    if end <= 1 {
        return None;
    }
    assert(end < n);
    if class_holds(slice_subrange(pattern, 1, end), text[0]) {
        Some((tail(pattern, end + 1), tail(text, 1)))
    } else {
        None
    }
}

pub fn glob_matches(pattern: &[u8], text: &[u8]) -> (r: bool)
    ensures
        r == glob(pattern@, text@),
    decreases pattern@.len(), text@.len(),
{
    if pattern.len() == 0 {
        return text.len() == 0;
    }
    if pattern[0] == STAR {
        proof {
            lemma_star(pattern@, text@);
        }
        glob_matches(tail(pattern, 1), text) || (text.len() > 0 && text[0] != SLASH
            && glob_matches(pattern, tail(text, 1)))
    } else if pattern[0] == QUESTION {
        text.len() > 0 && text[0] != SLASH && glob_matches(tail(pattern, 1), tail(text, 1))
    } else if pattern[0] == OPEN {
        match match_char_class(pattern, text) {
            Some(rest) => glob_matches(rest.0, rest.1),
            None => false,
        }
    } else {
        text.len() > 0 && pattern[0] == text[0] && glob_matches(tail(pattern, 1), tail(text, 1))
    }
}

/// The pattern matches the text, each taken as its UTF-8 bytes.
pub open spec fn glob_text(p: Seq<char>, t: Seq<char>) -> bool {
    glob(encode_utf8(p), encode_utf8(t))
}

pub fn glob_component_matches(pattern: &str, text: &str) -> (r: bool)
    ensures
        r == glob_text(pattern@, text@),
{
    glob_matches(pattern.as_bytes(), text.as_bytes())
}

/// `s` without the `./` that it starts with, however often.
pub open spec fn without_dots(s: Seq<char>) -> Seq<char>
    decreases s.len(),
{
    if has_prefix(s, "./"@) && s.len() >= 2 {
        without_dots(s.skip(2))
    } else {
        s
    }
}

fn strip_dots(s: &str) -> (r: String)
    ensures
        r@ == without_dots(s@),
    decreases s@.len(),
{
    proof {
        reveal_strlit("./");
    }
    if starts_with(s, "./") {
        let rest: String = skip_chars(s, 2);
        strip_dots(&rest)
    } else {
        s.to_owned()
    }
}

/// The path is among those that the pattern declares. A pattern that ends with a slash
/// declares everything whose first component it matches.
pub open spec fn declared_by(pattern: Seq<char>, rel_path: Seq<char>) -> bool {
    let p = without_dots(pattern);
    let t = without_dots(rel_path);
    if has_suffix(p, "/"@) {
        glob_text(drop_trailing(p, '/'), split_on(t, '/')[0])
    } else {
        glob_text(p, t)
    }
}

pub fn output_pattern_matches(pattern: &str, rel_path: &str) -> (r: bool)
    ensures
        r == declared_by(pattern@, rel_path@),
{
    let p: String = strip_dots(pattern);
    let t: String = strip_dots(rel_path);
    if ends_with(&p, "/") {
        let first: Vec<String> = split_char(&t, '/');
        assert(first@[0]@ == split_on(t@, '/')[0]);
        glob_component_matches(&trim_end_char(&p, '/'), &first[0])
    } else {
        glob_component_matches(&p, &t)
    }
}

/// One declaration of a container's manifest: a pattern of paths and the kind of output that
/// they are.
pub struct OutputRule {
    pub path: String,
    pub output_type: String,
}

/// What a declaration says: the pattern and the kind.
pub open spec fn rule_views(rules: Seq<OutputRule>) -> Seq<(Seq<char>, Seq<char>)> {
    Seq::new(rules.len(), |i: int| (rules[i].path@, rules[i].output_type@))
}

/// The kind of the first declaration that the path falls under.
pub open spec fn output_type_of(rules: Seq<(Seq<char>, Seq<char>)>, rel_path: Seq<char>) -> Option<
    Seq<char>,
>
    decreases rules.len(),
{
    if rules.len() == 0 {
        None
    } else if declared_by(rules[0].0, rel_path) {
        Some(rules[0].1)
    } else {
        output_type_of(rules.skip(1), rel_path)
    }
}

pub fn output_type_for_path(rules: &Vec<OutputRule>, rel_path: &str) -> (r: Option<String>)
    ensures
        match output_type_of(rule_views(rules@), rel_path@) {
            Some(t) => r is Some && r->0@ == t,
            None => r is None,
        },
{
    let ghost all = rule_views(rules@);
    let mut i: usize = 0;
    assert(all.skip(0) =~= all);
    while i < rules.len()
        invariant
            i <= rules@.len(),
            all == rule_views(rules@),
            output_type_of(all, rel_path@) == output_type_of(all.skip(i as int), rel_path@),
        decreases rules@.len() - i,
    {
        assert(all.skip(i as int)[0] == (rules@[i as int].path@, rules@[i as int].output_type@));
        if output_pattern_matches(&rules[i].path, rel_path) {
            return Some(rules[i].output_type.clone());
        }
        assert(all.skip(i as int).skip(1) =~= all.skip(i + 1));
        i = i + 1;
    }
    None
}

/// The path of a file below `root`, as its names joined by slashes; none, where the file does
/// not lie below it.
pub open spec fn path_below(root: Seq<char>, candidate: Seq<char>) -> Option<Seq<char>> {
    let below = names_from(parts(candidate), parts(root).len() as int);
    if path_begins(root, candidate) && below.len() > 0 {
        Some(joined(below, "/"@))
    } else {
        None
    }
}

pub fn relative_output_path(root: &str, candidate: &str) -> (r: Option<String>)
    ensures
        match path_below(root@, candidate@) {
            Some(p) => r is Some && r->0@ == p,
            None => r is None,
        },
{
    let a: Vec<PathPart> = components(root);
    let b: Vec<PathPart> = components(candidate);
    if !parts_begin(&a, &b) {
        return None;
    }
    let below: Vec<String> = names(&b, a.len());
    assert(texts(below@).len() == below@.len());
    if below.len() == 0 {
        None
    } else {
        Some(join(&below, "/"))
    }
}

/// Why an output may not be had.
#[derive(Clone, Copy, PartialEq, Eq, Structural, Debug)]
pub enum OutputError {
    NoManifest,
    Absolute,
    NotBelow,
    Empty,
    Undeclared,
    Outside,
}

pub open spec fn output_error_text(e: OutputError) -> Seq<char> {
    match e {
        OutputError::NoManifest => "Job has no container manifest with declared outputs"@,
        OutputError::Absolute => "Output path must be relative to the job working directory"@,
        OutputError::NotBelow =>
            "Output path may not contain parent, prefix, or root components"@,
        OutputError::Empty => "Output path is empty"@,
        OutputError::Undeclared => "Output path is not declared in the container manifest"@,
        OutputError::Outside => "Output path resolves outside the job working directory"@,
    }
}

impl OutputError {
    pub fn message(self) -> (r: String)
        ensures
            r@ == output_error_text(self),
    {
        match self {
            OutputError::NoManifest => "Job has no container manifest with declared outputs"
                .to_owned(),
            OutputError::Absolute => "Output path must be relative to the job working directory"
                .to_owned(),
            OutputError::NotBelow =>
                "Output path may not contain parent, prefix, or root components".to_owned(),
            OutputError::Empty => "Output path is empty".to_owned(),
            OutputError::Undeclared => "Output path is not declared in the container manifest"
                .to_owned(),
            OutputError::Outside => "Output path resolves outside the job working directory"
                .to_owned(),
        }
    }
}

/// Every component is a name or the directory that the path starts from.
pub open spec fn only_names(c: Seq<Part>) -> bool {
    forall|i: int| 0 <= i < c.len() ==> #[trigger] c[i] is Name || c[i] is Cur
}

/// The names of a requested path, joined by slashes.
pub open spec fn normalized_path(requested: Seq<char>) -> Seq<char> {
    joined(names_from(parts(requested), 0), "/"@)
}

/// What a request for an output comes to: where the file is looked for, its path below the
/// working directory, and its kind.
pub struct OutputRequest {
    pub candidate: String,
    pub normalized: String,
    pub output_type: String,
}

/// Why a request for an output is refused, if it is.
pub open spec fn request_refused(
    rules: Seq<(Seq<char>, Seq<char>)>,
    requested: Seq<char>,
) -> Option<OutputError> {
    if absolute(requested) {
        Some(OutputError::Absolute)
    } else if !only_names(parts(requested)) {
        Some(OutputError::NotBelow)
    } else if normalized_path(requested).len() == 0 {
        Some(OutputError::Empty)
    } else if output_type_of(rules, normalized_path(requested)) is None {
        Some(OutputError::Undeclared)
    } else {
        None
    }
}

fn all_names(c: &Vec<PathPart>) -> (r: bool)
    ensures
        r == only_names(part_views(c@)),
{
    let ghost v = part_views(c@);
    let mut i: usize = 0;
    while i < c.len()
        invariant
            i <= c@.len(),
            v == part_views(c@),
            forall|k: int| 0 <= k < i ==> #[trigger] v[k] is Name || v[k] is Cur,
        decreases c@.len() - i,
    {
        assert(v[i as int] == c@[i as int]@);
        match &c[i] {
            PathPart::Name(_) => {},
            PathPart::Cur => {},
            _ => {
                return false;
            },
        }
        i = i + 1;
    }
    true
}

pub fn validate_output_request(root: &str, rules: &Vec<OutputRule>, requested_path: &str) -> (r:
    Result<OutputRequest, OutputError>)
    ensures
        match request_refused(rule_views(rules@), requested_path@) {
            Some(e) => r == Err::<OutputRequest, OutputError>(e),
            None => r matches Ok(q) && q.normalized@ == normalized_path(requested_path@)
                && q.candidate@ == path_join(root@, normalized_path(requested_path@))
                && output_type_of(rule_views(rules@), normalized_path(requested_path@)) == Some(
                q.output_type@,
            ),
        },
{
    if is_absolute(requested_path) {
        return Err(OutputError::Absolute);
    }
    let c: Vec<PathPart> = components(requested_path);
    if !all_names(&c) {
        return Err(OutputError::NotBelow);
    }
    let normalized: String = join(&names(&c, 0), "/");
    if normalized.as_str().is_empty() {
        return Err(OutputError::Empty);
    }
    match output_type_for_path(rules, &normalized) {
        None => Err(OutputError::Undeclared),
        Some(output_type) => {
            let candidate: String = join_path(root, &normalized);
            Ok(OutputRequest { candidate, normalized, output_type })
        },
    }
}

/// Whether a requested file that exists may be read: links resolved, it has to lie below the
/// working directory.
pub fn check_resolved(root_canon: &str, candidate_canon: &str) -> (r: Result<(), OutputError>)
    ensures
        r == (if path_begins(root_canon@, candidate_canon@) {
            Ok::<(), OutputError>(())
        } else {
            Err(OutputError::Outside)
        }),
{
    if lies_under(root_canon, candidate_canon) {
        Ok(())
    } else {
        Err(OutputError::Outside)
    }
}

/// A file that was found in a job's working directory.
pub struct FoundFile {
    pub path: String,
    pub size: u64,
    pub updated_at: Option<u64>,
}

/// An output of a job.
pub struct JobOutputArtifact {
    pub path: String,
    pub output_type: String,
    pub file_id: Option<String>,
    pub size: Option<u64>,
    pub updated_at: Option<u64>,
}

/// What an artifact says of itself: path, kind, number of the stored file, size, time of change.
pub struct ArtifactView {
    pub path: Seq<char>,
    pub output_type: Seq<char>,
    pub file_id: Option<Seq<char>>,
    pub size: Option<u64>,
    pub updated_at: Option<u64>,
}

impl View for JobOutputArtifact {
    type V = ArtifactView;

    open spec fn view(&self) -> ArtifactView {
        ArtifactView {
            path: self.path@,
            output_type: self.output_type@,
            file_id: optional_text(self.file_id),
            size: self.size,
            updated_at: self.updated_at,
        }
    }
}

pub open spec fn artifact_views(v: Seq<JobOutputArtifact>) -> Seq<ArtifactView> {
    Seq::new(v.len(), |i: int| v[i]@)
}

/// The artifact that a file is, if it is declared.
pub open spec fn artifact_of(
    root: Seq<char>,
    rules: Seq<(Seq<char>, Seq<char>)>,
    f: FoundFile,
) -> Option<ArtifactView> {
    match path_below(root, f.path@) {
        None => None,
        Some(rel) => match output_type_of(rules, rel) {
            None => None,
            Some(t) => Some(
                ArtifactView {
                    path: rel,
                    output_type: t,
                    file_id: None,
                    size: Some(f.size),
                    updated_at: f.updated_at,
                },
            ),
        },
    }
}

/// The artifacts among the first `n` files, in the order of the files.
pub open spec fn artifacts_of(
    root: Seq<char>,
    rules: Seq<(Seq<char>, Seq<char>)>,
    files: Seq<FoundFile>,
    n: int,
) -> Seq<ArtifactView>
    decreases n,
{
    if n <= 0 {
        Seq::empty()
    } else {
        match artifact_of(root, rules, files[n - 1]) {
            Some(a) => artifacts_of(root, rules, files, n - 1).push(a),
            None => artifacts_of(root, rules, files, n - 1),
        }
    }
}

/// The order of artifacts by path.
pub open spec fn by_path() -> spec_fn(ArtifactView, ArtifactView) -> bool {
    |a: ArtifactView, b: ArtifactView| text_le(a.path, b.path)
}

/// A list without the artifacts that repeat the path before them.
pub open spec fn without_repeats(s: Seq<ArtifactView>) -> Seq<ArtifactView>
    decreases s.len(),
{
    if s.len() == 0 {
        s
    } else {
        let kept = without_repeats(s.drop_last());
        if kept.len() > 0 && kept.last().path == s.last().path {
            kept
        } else {
            kept.push(s.last())
        }
    }
}

fn select_artifacts(root: &str, rules: &Vec<OutputRule>, files: &Vec<FoundFile>) -> (r: Vec<
    JobOutputArtifact,
>)
    ensures
        artifact_views(r@) == artifacts_of(
            root@,
            rule_views(rules@),
            files@,
            files@.len() as int,
        ),
{
    let mut r: Vec<JobOutputArtifact> = Vec::new();
    let mut i: usize = 0;
    assert(artifact_views(r@) =~= Seq::<ArtifactView>::empty());
    while i < files.len()
        invariant
            i <= files@.len(),
            artifact_views(r@) == artifacts_of(root@, rule_views(rules@), files@, i as int),
        decreases files@.len() - i,
    {
        if let Some(rel) = relative_output_path(root, &files[i].path) {
            if let Some(output_type) = output_type_for_path(rules, &rel) {
                let a = JobOutputArtifact {
                    path: rel,
                    output_type,
                    file_id: None,
                    size: Some(files[i].size),
                    updated_at: files[i].updated_at,
                };
                let ghost before = r@;
                r.push(a);
                assert(artifact_views(r@) =~= artifact_views(before).push(a@));
            }
        }
        i = i + 1;
    }
    r
}

/// The same order on the artifacts themselves.
pub open spec fn artifacts_by_path() -> spec_fn(JobOutputArtifact, JobOutputArtifact) -> bool {
    |a: JobOutputArtifact, b: JobOutputArtifact| text_le(a.path@, b.path@)
}

proof fn lemma_by_path_total()
    ensures
        total_order(artifacts_by_path()),
{
    let le = artifacts_by_path();
    assert forall|a: JobOutputArtifact, b: JobOutputArtifact| #[trigger] le(a, b) || le(b, a) by {
        crate::order::law_text_order_is_total(a.path@, b.path@);
    }
    assert forall|a: JobOutputArtifact, b: JobOutputArtifact, c: JobOutputArtifact| #[trigger]
        le(a, b) && #[trigger] le(b, c) implies le(a, c) by {
        crate::order::law_text_order_is_transitive(a.path@, b.path@, c.path@);
    }
}

fn drop_repeats(sorted: Vec<JobOutputArtifact>) -> (r: Vec<JobOutputArtifact>)
    ensures
        artifact_views(r@) == without_repeats(artifact_views(sorted@)),
{
    let ghost all = artifact_views(sorted@);
    let ghost input = sorted@;
    let mut rest: Vec<JobOutputArtifact> = reversed(sorted);
    let mut r: Vec<JobOutputArtifact> = Vec::new();
    let ghost mut i: int = 0;
    assert(all.take(0) =~= Seq::<ArtifactView>::empty());
    assert(artifact_views(r@) =~= all.take(0));
    assert(input.skip(0) =~= input);
    while rest.len() > 0
        invariant
            0 <= i <= input.len(),
            all == artifact_views(input),
            rest@ == input.skip(i).reverse(),
            artifact_views(r@) == without_repeats(all.take(i)),
        decreases rest@.len(),
    {
        let a: JobOutputArtifact = take_first(&mut rest, Ghost(input), Ghost(i));
        assert(a == input[i]);
        let ghost next = all.take(i + 1);
        assert(next.drop_last() =~= all.take(i));
        assert(next.last() == a@);
        let n: usize = r.len();
        assert(n > 0 ==> artifact_views(r@).last() == r@[n - 1]@);
        if n == 0 || !str_eq(&r[n - 1].path, &a.path) {
            let ghost before = r@;
            r.push(a);
            assert(artifact_views(r@) =~= artifact_views(before).push(a@));
        }
        proof {
            i = i + 1;
        }
    }
    assert(all.take(all.len() as int) =~= all);
    r
}

/// The outputs among the files of a working directory: those that a declaration covers,
/// sorted by path, each path once.
pub fn collect_declared_output_artifacts(
    root: &str,
    rules: &Vec<OutputRule>,
    files: &Vec<FoundFile>,
) -> (r: Vec<JobOutputArtifact>)
    ensures
        exists|selected: Seq<JobOutputArtifact>, sorted: Seq<JobOutputArtifact>|
            {
                &&& artifact_views(selected) == artifacts_of(
                    root@,
                    rule_views(rules@),
                    files@,
                    files@.len() as int,
                )
                &&& #[trigger] stably_sorted(sorted, selected, artifacts_by_path())
                &&& artifact_views(r@) == without_repeats(artifact_views(sorted))
            },
        forall|i: int, j: int|
            0 <= i < j < r@.len() ==> text_le((#[trigger] r@[i]).path@, (#[trigger] r@[j]).path@)
                && r@[i].path@ != r@[j].path@,
{
    let selected: Vec<JobOutputArtifact> = select_artifacts(root, rules, files);
    let ghost before = selected@;
    proof {
        lemma_by_path_total();
    }
    let at_most = |a: &JobOutputArtifact, b: &JobOutputArtifact| -> (q: bool)
        ensures
            (q == text_le(a.path@, b.path@)),
        { text_at_most(&a.path, &b.path) };
    let sorted: Vec<JobOutputArtifact> = stable_sort(
        selected,
        at_most,
        Ghost(artifacts_by_path()),
    );
    let ghost in_order = sorted@;
    let r: Vec<JobOutputArtifact> = drop_repeats(sorted);
    proof {
        assert(stably_sorted(in_order, before, artifacts_by_path()));
        let v = artifact_views(in_order);
        assert(sorted_by(v, by_path())) by {
            assert forall|i: int, j: int| 0 <= i <= j < v.len() implies by_path()(
                #[trigger] v[i],
                #[trigger] v[j],
            ) by {
                assert(artifacts_by_path()(in_order[i], in_order[j]));
            }
        }
        lemma_repeats_gone(v);
        assert forall|i: int, j: int| 0 <= i < j < r@.len() implies text_le(
            (#[trigger] r@[i]).path@,
            (#[trigger] r@[j]).path@,
        ) && r@[i].path@ != r@[j].path@ by {
            let k = without_repeats(v);
            assert(k[i] == r@[i]@);
            assert(k[j] == r@[j]@);
        }
    }
    r
}

proof fn lemma_repeats_gone(s: Seq<ArtifactView>)
    requires
        sorted_by(s, by_path()),
    ensures
        ({
            let k = without_repeats(s);
            &&& forall|i: int, j: int|
                0 <= i < j < k.len() ==> text_le((#[trigger] k[i]).path, (#[trigger] k[j]).path)
                    && k[i].path != k[j].path
            &&& (s.len() > 0 ==> k.len() > 0 && k.last().path == s.last().path)
            &&& (s.len() == 0 ==> k.len() == 0)
        }),
    decreases s.len(),
{
    if s.len() > 0 {
        let d = s.drop_last();
        let k = without_repeats(s);
        let kd = without_repeats(d);
        assert forall|i: int, j: int| 0 <= i <= j < d.len() implies by_path()(
            #[trigger] d[i],
            #[trigger] d[j],
        ) by {
            assert(by_path()(s[i], s[j]));
        }
        lemma_repeats_gone(d);
        if d.len() > 0 && kd.last().path != s.last().path {
            assert(by_path()(s[d.len() - 1], s[s.len() - 1]));
            assert forall|i: int, j: int| 0 <= i < j < k.len() implies text_le(
                (#[trigger] k[i]).path,
                (#[trigger] k[j]).path,
            ) && k[i].path != k[j].path by {
                if j == k.len() - 1 {
                    if i < kd.len() - 1 {
                        assert(text_le(kd[i].path, kd.last().path));
                        crate::order::law_text_order_is_transitive(
                            kd[i].path,
                            kd.last().path,
                            s.last().path,
                        );
                        if kd[i].path == s.last().path {
                            crate::order::law_text_order_is_total(kd[i].path, kd.last().path);
                        }
                    }
                }
            }
        }
    }
}

/// A pattern without a slash matches no text with one: neither stars nor classes reach into
/// another directory.
pub proof fn law_glob_stays_in_a_component(p: Seq<u8>, t: Seq<u8>)
    requires
        no_slash(p),
        glob(p, t),
    ensures
        no_slash(t),
    decreases p.len(),
{
    if p.len() > 0 {
        assert forall|n: int| 0 <= n <= p.len() implies no_slash(#[trigger] p.skip(n)) by {
            assert forall|i: int| 0 <= i < p.skip(n).len() implies #[trigger] p.skip(n)[i]
                != SLASH by {
                assert(p.skip(n)[i] == p[n + i]);
            }
        }
        if p[0] == STAR {
            let k = choose|k: int|
                0 <= k <= t.len() && no_slash(#[trigger] t.take(k)) && glob(p.skip(1), t.skip(k));
            law_glob_stays_in_a_component(p.skip(1), t.skip(k));
            assert forall|i: int| 0 <= i < t.len() implies #[trigger] t[i] != SLASH by {
                if i < k {
                    assert(t.take(k)[i] == t[i]);
                } else {
                    assert(t.skip(k)[i - k] == t[i]);
                }
            }
        } else {
            let n: int = if p[0] == OPEN {
                close_from(p, 0)->0 + 1
            } else {
                1
            };
            law_glob_stays_in_a_component(p.skip(n), t.skip(1));
            assert forall|i: int| 0 <= i < t.len() implies #[trigger] t[i] != SLASH by {
                if i > 0 {
                    assert(t.skip(1)[i - 1] == t[i]);
                }
            }
        }
    }
}

/// A pattern without stars, question marks and brackets matches itself and nothing else.
pub proof fn law_plain_pattern_matches_itself_only(p: Seq<u8>, t: Seq<u8>)
    requires
        forall|i: int|
            0 <= i < p.len() ==> #[trigger] p[i] != STAR && p[i] != QUESTION && p[i] != OPEN,
    ensures
        glob(p, t) == (p == t),
    decreases p.len(),
{
    if p.len() == 0 {
        if t.len() == 0 {
            assert(p =~= t);
        }
    } else {
        assert(p[0] != STAR);
        if t.len() > 0 {
            assert forall|i: int| 0 <= i < p.skip(1).len() implies #[trigger] p.skip(1)[i] != STAR
                && p.skip(1)[i] != QUESTION && p.skip(1)[i] != OPEN by {
                assert(p.skip(1)[i] == p[i + 1]);
            }
            law_plain_pattern_matches_itself_only(p.skip(1), t.skip(1));
            if p[0] == t[0] && p.skip(1) == t.skip(1) {
                assert(p =~= seq![p[0]] + p.skip(1));
                assert(t =~= seq![t[0]] + t.skip(1));
            }
        }
    }
}

/// A request that is not refused names a file by names alone: no component of it leads up or
/// to the root.
pub proof fn law_accepted_requests_stay_below(
    rules: Seq<(Seq<char>, Seq<char>)>,
    requested: Seq<char>,
    i: int,
)
    requires
        request_refused(rules, requested) is None,
        0 <= i < parts(requested).len(),
    ensures
        parts(requested)[i] is Name || parts(requested)[i] is Cur,
        !absolute(requested),
{
}

/// A byte that stands for itself in a pattern.
pub open spec fn plain_byte(b: u8) -> bool {
    b != STAR && b != QUESTION && b != OPEN
}

/// What plain bytes a pattern starts with, a text has to start with; the rest of the pattern goes
/// for the rest of the text.
pub proof fn law_plain_bytes_stand_for_themselves(p: Seq<u8>, q: Seq<u8>, t: Seq<u8>)
    requires
        forall|i: int| 0 <= i < p.len() ==> plain_byte(#[trigger] p[i]),
    ensures
        glob(p + q, t) <==> p.len() <= t.len() && t.take(p.len() as int) == p && glob(
            q,
            t.skip(p.len() as int),
        ),
    decreases p.len(),
{
    if p.len() == 0 {
        assert(p + q =~= q);
        assert(t.skip(0) =~= t);
        assert(t.take(0) =~= p);
    } else {
        let all = p + q;
        assert(plain_byte(p[0]));
        assert(all[0] == p[0]);
        assert(all.skip(1) =~= p.skip(1) + q);
        if t.len() > 0 {
            assert forall|i: int| 0 <= i < p.skip(1).len() implies plain_byte(
                #[trigger] p.skip(1)[i],
            ) by {
                assert(p.skip(1)[i] == p[i + 1]);
            }
            law_plain_bytes_stand_for_themselves(p.skip(1), q, t.skip(1));
            if p.len() <= t.len() {
                assert(t.skip(1).skip(p.len() - 1) =~= t.skip(p.len() as int));
                assert(t.take(p.len() as int).skip(1) =~= t.skip(1).take(p.len() - 1));
                if t[0] == p[0] && t.skip(1).take(p.len() - 1) == p.skip(1) {
                    assert(t.take(p.len() as int) =~= p) by {
                        assert forall|i: int| 0 <= i < p.len() implies t[i] == p[i] by {
                            if i > 0 {
                                assert(t.skip(1).take(p.len() - 1)[i - 1] == p.skip(1)[i - 1]);
                            }
                        }
                    }
                }
                if t.take(p.len() as int) == p {
                    assert(t.take(p.len() as int)[0] == p[0]);
                }
            }
        }
    }
}

/// A star stands for any name, a question mark for any byte of one, and a range in brackets for the
/// bytes of the range; none of them for a slash.
pub proof fn law_wildcards_stand_for_names(t: Seq<u8>, low: u8, high: u8, b: u8)
    requires
        low != CLOSE && high != CLOSE,
    ensures
        glob(seq![STAR], t) <==> no_slash(t),
        glob(seq![QUESTION], t) <==> t.len() == 1 && t[0] != SLASH,
        glob(seq![OPEN, low, DASH, high, CLOSE], seq![b]) <==> b != SLASH && low <= b <= high,
{
    let none = Seq::<u8>::empty();
    let star = seq![STAR];
    assert(star.skip(1) =~= none);
    if no_slash(t) {
        assert(t.take(t.len() as int) =~= t);
        assert(t.skip(t.len() as int) =~= none);
        assert(no_slash(t.take(t.len() as int)) && glob(star.skip(1), t.skip(t.len() as int)));
    }
    if glob(star, t) {
        let k = choose|k: int|
            0 <= k <= t.len() && no_slash(#[trigger] t.take(k)) && glob(star.skip(1), t.skip(k));
        assert(t.skip(k).len() == 0);
        assert(t.take(k) =~= t);
    }
    let ask = seq![QUESTION];
    assert(ask.skip(1) =~= none);
    if t.len() > 0 {
        assert(glob(none, t.skip(1)) == (t.skip(1).len() == 0));
    }
    let range = seq![OPEN, low, DASH, high, CLOSE];
    assert(close_from(range, 4) == Some(4int));
    assert(close_from(range, 3) == Some(4int));
    assert(close_from(range, 2) == Some(4int));
    assert(close_from(range, 1) == Some(4int));
    assert(close_from(range, 0) == Some(4int));
    let class = range.subrange(1, 4);
    assert(class =~= seq![low, DASH, high]);
    assert(class.skip(3) =~= none);
    assert(!in_class(none, b));
    assert(in_class(class, b) == (low <= b <= high));
    assert(range.skip(5) =~= none);
    assert(seq![b].skip(1) =~= none);
    assert(glob(none, none));
}

/// It makes no difference whether a pattern or a path starts with `./`.
pub proof fn law_leading_dots_make_no_difference(pattern: Seq<char>, rel_path: Seq<char>)
    ensures
        declared_by("./"@ + pattern, rel_path) == declared_by(pattern, rel_path),
        declared_by(pattern, "./"@ + rel_path) == declared_by(pattern, rel_path),
{
    lemma_dots_gone(pattern);
    lemma_dots_gone(rel_path);
}

proof fn lemma_dots_gone(s: Seq<char>)
    ensures
        without_dots("./"@ + s) == without_dots(s),
{
    reveal_strlit("./");
    let t = "./"@ + s;
    assert(t.subrange(0, 2) =~= "./"@);
    assert(t.skip(2) =~= s);
}

/// A pattern that is a plain name declares the path of that name only; with a slash behind it, it
/// declares what lies in the directory of that name.
pub proof fn law_directories_declare_what_is_in_them(
    name: Seq<char>,
    rest: Seq<char>,
    path: Seq<char>,
)
    requires
        name.len() > 0 && !name.contains('/') && name[0] != '.',
        forall|i: int|
            0 <= i < encode_utf8(name).len() ==> plain_byte(#[trigger] encode_utf8(name)[i]),
        path.len() > 0 && path[0] != '.',
    ensures
        declared_by(name + "/"@, name + "/"@ + rest),
        declared_by(name, path) <==> encode_utf8(path) == encode_utf8(name),
{
    reveal_strlit("/");
    reveal_strlit("./");
    let p = name + "/"@;
    let t = name + "/"@ + rest;
    assert(p[0] == name[0] && t[0] == name[0]);
    lemma_no_dots(p);
    lemma_no_dots(t);
    lemma_no_dots(name);
    lemma_no_dots(path);
    crate::text::lemma_ends_with(name, "/"@);
    assert(name.last() != '/') by {
        if name.last() == '/' {
            assert(name.contains('/'));
        }
    }
    assert(p.drop_last() =~= name);
    assert(p.last() == '/');
    assert(drop_trailing(p, '/') == drop_trailing(name, '/'));
    assert(drop_trailing(name, '/') == name);
    crate::pieces::lemma_split_on_some(t, '/');
    crate::pieces::law_first_piece(t, '/');
    let first = split_on(t, '/')[0];
    assert(t[name.len() as int] == '/');
    if first.len() > name.len() {
        assert(first[name.len() as int] == t[name.len() as int]);
        assert(first.contains('/'));
    }
    if first.len() < name.len() {
        assert(t[first.len() as int] == name[first.len() as int]);
        assert(name.contains('/'));
    }
    assert(first =~= name);
    let b = encode_utf8(name);
    law_plain_pattern_matches_itself_only(b, b);
    law_plain_pattern_matches_itself_only(b, encode_utf8(path));
    if has_suffix(name, "/"@) {
        assert(name.subrange(name.len() - 1, name.len() as int)[0] == '/');
    }
}

proof fn lemma_no_dots(s: Seq<char>)
    requires
        s.len() > 0 && s[0] != '.',
    ensures
        without_dots(s) == s,
{
    reveal_strlit("./");
    if has_prefix(s, "./"@) {
        assert(s.subrange(0, 2)[0] == '.');
    }
}

/// The kind of an output is that of the first declaration that covers it.
pub proof fn law_first_declaration_decides(
    rules: Seq<(Seq<char>, Seq<char>)>,
    i: int,
    rel_path: Seq<char>,
)
    ensures
        0 <= i < rules.len() && declared_by(rules[i].0, rel_path) && (forall|k: int|
            0 <= k < i ==> !declared_by((#[trigger] rules[k]).0, rel_path)) ==> output_type_of(
            rules,
            rel_path,
        ) == Some(rules[i].1),
        (forall|k: int| 0 <= k < rules.len() ==> !declared_by((#[trigger] rules[k]).0, rel_path))
            ==> output_type_of(rules, rel_path) is None,
    decreases rules.len(),
{
    if rules.len() > 0 {
        let rest = rules.skip(1);
        law_first_declaration_decides(rest, i - 1, rel_path);
        assert(forall|k: int| 0 <= k < rest.len() ==> #[trigger] rest[k] == rules[k + 1]);
        if forall|k: int| 0 <= k < rules.len() ==> !declared_by((#[trigger] rules[k]).0, rel_path) {
            assert(!declared_by(rules[0].0, rel_path));
            assert forall|k: int| 0 <= k < rest.len() implies !declared_by(
                (#[trigger] rest[k]).0,
                rel_path,
            ) by {
                assert(rest[k] == rules[k + 1]);
            }
        }
        if 0 < i < rules.len() && (forall|k: int|
            0 <= k < i ==> !declared_by((#[trigger] rules[k]).0, rel_path)) {
            assert(!declared_by(rules[0].0, rel_path));
            assert(rest[i - 1] == rules[i]);
            assert forall|k: int| 0 <= k < i - 1 implies !declared_by(
                (#[trigger] rest[k]).0,
                rel_path,
            ) by {
                assert(rest[k] == rules[k + 1]);
            }
        }
    }
}

proof fn lemma_names_push(c: Seq<Part>, name: Seq<char>, from: int)
    requires
        0 <= from <= c.len(),
    ensures
        names_from(c.push(Part::Name(name)), from) == names_from(c, from).push(name),
    decreases c.len() - from,
{
    let all = c.push(Part::Name(name));
    if from == c.len() {
        assert(all[from] == Part::Name(name));
        assert(names_from(all, from + 1) =~= Seq::<Seq<char>>::empty());
        assert(names_from(all, from) =~= seq![name]);
        assert(names_from(c, from).push(name) =~= seq![name]);
    } else {
        lemma_names_push(c, name, from + 1);
        assert(all[from] == c[from]);
        if let Part::Name(n) = c[from] {
            assert((seq![n] + names_from(c, from + 1)).push(name) =~= seq![n] + names_from(
                c,
                from + 1,
            ).push(name));
        }
    }
}

/// A file in the working directory is known by its name, and one in a directory below by the path of
/// the directory and its name.
pub proof fn law_files_are_known_by_their_path_below(
    root: Seq<char>,
    dir: Seq<char>,
    name: Seq<char>,
)
    requires
        plain_name(name),
    ensures
        path_below(root, path_join(root, name)) == Some(name),
        path_below(root, dir) is Some ==> path_below(root, path_join(dir, name)) == Some(
            path_below(root, dir)->0 + "/"@ + name,
        ),
{
    let none = Seq::<Seq<char>>::empty();
    let r = parts(root);
    law_joined_names_lie_in_the_directory(root, name);
    lemma_names_push(r, name, r.len() as int);
    assert(names_from(r, r.len() as int) =~= none);
    assert(none.push(name) =~= seq![name]);
    let c = parts(path_join(root, name));
    assert(c == r.push(Part::Name(name)));
    assert(c.take(r.len() as int) =~= r);
    if path_below(root, dir) is Some {
        let d = parts(dir);
        law_joined_names_lie_in_the_directory(dir, name);
        lemma_names_push(d, name, r.len() as int);
        let e = d.push(Part::Name(name));
        assert(e.take(r.len() as int) =~= d.take(r.len() as int));
        let below = names_from(d, r.len() as int);
        assert(below.push(name).drop_last() =~= below);
    }
}

/// A plain name that is declared may be asked for, and is looked for in the working directory. An
/// absolute path may not be asked for, nor may one that leads up, nor one that is not declared.
pub proof fn law_declared_names_may_be_asked_for(
    rules: Seq<(Seq<char>, Seq<char>)>,
    name: Seq<char>,
    requested: Seq<char>,
    i: int,
)
    ensures
        plain_name(name) && output_type_of(rules, name) is Some ==> request_refused(rules, name)
            is None && normalized_path(name) == name,
        plain_name(name) && output_type_of(rules, name) is None ==> request_refused(rules, name)
            == Some(OutputError::Undeclared),
        requested.len() > 0 && requested[0] == '/' ==> request_refused(rules, requested) == Some(
            OutputError::Absolute,
        ),
        0 <= i < parts(requested).len() && parts(requested)[i] is Up ==> request_refused(
            rules,
            requested,
        ) is Some,
        request_refused(rules, Seq::<char>::empty()) == Some(OutputError::Empty),
{
    let none = Seq::<char>::empty();
    assert(!none.contains('/'));
    crate::pieces::law_split_of_one_piece(none, '/');
    assert(crate::paths::parts_of(seq![none], false, 0) =~= Seq::<Part>::empty());
    assert(crate::paths::parts_of(seq![none], false, 1) =~= Seq::<Part>::empty());
    assert(parts(none) =~= Seq::<Part>::empty());
    assert(names_from(parts(none), 0) =~= Seq::<Seq<char>>::empty());
    if plain_name(name) {
        law_joined_names_lie_in_the_directory(none, name);
        assert(name[0] != '/');
        assert(path_join(none, name) =~= name);
        let c = parts(name);
        assert(c =~= seq![Part::Name(name)]);
        assert(names_from(c, 1) =~= Seq::<Seq<char>>::empty());
        assert(names_from(c, 0) =~= seq![name]);
        assert(normalized_path(name) == name);
        assert(only_names(c));
    }
}

/// An output is told with the size and the time of its file; only what is declared is an output.
pub proof fn law_outputs_are_declared_files(
    root: Seq<char>,
    rules: Seq<(Seq<char>, Seq<char>)>,
    f: FoundFile,
    name: Seq<char>,
)
    requires
        plain_name(name),
        f.path@ == path_join(root, name),
    ensures
        artifact_of(root, rules, f) is Some <==> output_type_of(rules, name) is Some,
        artifact_of(root, rules, f) is Some ==> artifact_of(root, rules, f)->0.path == name
            && artifact_of(root, rules, f)->0.size == Some(f.size) && artifact_of(
            root,
            rules,
            f,
        )->0.updated_at == f.updated_at && Some(artifact_of(root, rules, f)->0.output_type)
            == output_type_of(rules, name) && artifact_of(root, rules, f)->0.file_id is None,
{
    law_files_are_known_by_their_path_below(root, root, name);
}

/// No output is lost over the others: the path of each is in the list, and nothing else is.
pub proof fn law_no_output_is_lost(s: Seq<ArtifactView>, i: int)
    ensures
        0 <= i < s.len() ==> exists|k: int|
            0 <= k < without_repeats(s).len() && (#[trigger] without_repeats(s)[k]).path
                == s[i].path,
        0 <= i < without_repeats(s).len() ==> s.contains(without_repeats(s)[i]),
    decreases s.len(),
{
    if s.len() > 0 {
        let d = s.drop_last();
        let kd = without_repeats(d);
        let k = without_repeats(s);
        law_no_output_is_lost(d, i);
        if 0 <= i < d.len() {
            let j = choose|j: int| 0 <= j < kd.len() && (#[trigger] kd[j]).path == d[i].path;
            assert(k[j] == kd[j]);
        } else if i == d.len() {
            assert(k.last().path == s.last().path);
            assert(k[k.len() - 1].path == s[i].path);
        }
        if 0 <= i < k.len() {
            if i < kd.len() {
                let j = choose|j: int| 0 <= j < d.len() && d[j] == kd[i];
                assert(s[j] == k[i]);
            } else {
                assert(s[s.len() - 1] == k[i]);
            }
        }
    }
}

/// Every declared file of a working directory is among the outputs, and nothing else is.
pub proof fn law_every_declared_file_is_an_output(
    root: Seq<char>,
    rules: Seq<(Seq<char>, Seq<char>)>,
    files: Seq<FoundFile>,
    n: int,
    a: ArtifactView,
)
    requires
        0 <= n <= files.len(),
    ensures
        artifacts_of(root, rules, files, n).contains(a) <==> exists|i: int|
            0 <= i < n && artifact_of(root, rules, #[trigger] files[i]) == Some(a),
    decreases n,
{
    if n > 0 {
        law_every_declared_file_is_an_output(root, rules, files, n - 1, a);
        let before = artifacts_of(root, rules, files, n - 1);
        let all = artifacts_of(root, rules, files, n);
        if before.contains(a) {
            let k = choose|k: int| 0 <= k < before.len() && before[k] == a;
            assert(all[k] == a);
        }
        if artifact_of(root, rules, files[n - 1]) == Some(a) {
            assert(all[before.len() as int] == a);
        }
        if all.contains(a) && !before.contains(a) {
            let k = choose|k: int| 0 <= k < all.len() && all[k] == a;
            if k < before.len() {
                assert(before[k] == a);
            }
        }
    }
}

/// The reasons for which an output is refused are told apart.
pub proof fn law_refusals_are_told_apart(a: OutputError, b: OutputError)
    ensures
        a != b ==> output_error_text(a) != output_error_text(b),
{
    reveal_strlit("Job has no container manifest with declared outputs");
    reveal_strlit("Output path must be relative to the job working directory");
    reveal_strlit("Output path may not contain parent, prefix, or root components");
    reveal_strlit("Output path is empty");
    reveal_strlit("Output path is not declared in the container manifest");
    reveal_strlit("Output path resolves outside the job working directory");
    assert("Job has no container manifest with declared outputs"@.len() == 51);
    assert("Output path must be relative to the job working directory"@.len() == 57);
    assert("Output path may not contain parent, prefix, or root components"@.len() == 62);
    assert("Output path is empty"@.len() == 20);
    assert("Output path is not declared in the container manifest"@.len() == 53);
    assert("Output path resolves outside the job working directory"@.len() == 54);
}

} // verus!
