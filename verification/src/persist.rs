//! The rules of the project file and its backups: what a loaded file must
//! declare, what a project must satisfy to be saved, how backups are named,
//! which backups are pruned and which one is the latest, and how text is
//! escaped for SVG output.

use vstd::prelude::*;

use crate::drawing::{references_resolve, structural_issues};
use crate::laws::lemma_validation_errors_iff_unresolved;
use crate::model::Project;
use crate::report::{issues_have_errors, ValidationReport};
use crate::text::{
    decimal, digits_at, digits_in, is_digit, lemma_padded_digits, push_decimal,
    ends_with, lemma_padded_order, lemma_text_lt_concat, lemma_text_lt_irreflexive,
    lemma_text_lt_total, lemma_text_lt_transitive, padded_decimal, pow10, push_padded_decimal,
    starts_with, text_less, text_lt,
};

verus! {

broadcast use vstd::seq_lib::group_seq_properties, vstd::seq_lib::group_to_multiset_ensures;

/// The only schema version this build reads and writes.
pub const CURRENT_SCHEMA_VERSION: u32 = 1;

/// The only unit this build's schema supports.
pub const SUPPORTED_UNITS: &'static str = "millimeter";

/// Number of most recent backups kept per project.
pub const MAX_BACKUPS: usize = 10;

#[verifier::external_type_specification]
#[verifier::external_body]
pub struct ExIoError(std::io::Error);

#[verifier::external_type_specification]
#[verifier::external_body]
pub struct ExJsonError(serde_json::Error);

/// Why saving or loading a project failed.
#[derive(Debug)]
pub enum IoError {
    Io(std::io::Error),
    Serde(serde_json::Error),
    UnsupportedSchemaVersion(u32),
    UnsupportedUnits(String),
    Validation(ValidationReport),
    /// The file just written did not read back as an identical project; the
    /// save was abandoned before the real file was touched.
    RoundTripMismatch,
}

impl From<std::io::Error> for IoError {
    fn from(value: std::io::Error) -> (r: Self) {
        IoError::Io(value)
    }
}

impl vstd::std_specs::convert::FromSpecImpl<std::io::Error> for IoError {
    open spec fn obeys_from_spec() -> bool {
        true
    }

    open spec fn from_spec(v: std::io::Error) -> IoError {
        IoError::Io(v)
    }
}

impl From<serde_json::Error> for IoError {
    fn from(value: serde_json::Error) -> (r: Self) {
        IoError::Serde(value)
    }
}

impl vstd::std_specs::convert::FromSpecImpl<serde_json::Error> for IoError {
    open spec fn obeys_from_spec() -> bool {
        true
    }

    open spec fn from_spec(v: serde_json::Error) -> IoError {
        IoError::Serde(v)
    }
}

/// The text that `std::io::Error`'s `Display` gives. For an error of the
/// operating system it is the system's own description, so nothing is
/// stated of it.
#[verifier::external_body]
fn io_error_text(e: &std::io::Error) -> (s: String) {
    e.to_string()
}

/// The text that `serde_json::Error`'s `Display` gives (the kind of error,
/// then where in the input it was met). The error is opaque here, so
/// nothing is stated of the text.
#[verifier::external_body]
fn json_error_text(e: &serde_json::Error) -> (s: String) {
    e.to_string()
}

/// The message of an error whose text is not an outside error's.
pub open spec fn io_error_message(e: IoError) -> Seq<char> {
    match e {
        IoError::UnsupportedSchemaVersion(v) => "unsupported schema_version: "@ + decimal(v as nat),
        IoError::UnsupportedUnits(u) => "unsupported units: "@ + u@,
        IoError::Validation(report) => "validation failed with "@ + decimal(report@.len()) + " issue(s)"@,
        IoError::RoundTripMismatch => "saved file did not round-trip to an identical project"@,
        IoError::Io(_) => "file I/O error: "@,
        IoError::Serde(_) => "JSON error: "@,
    }
}

impl IoError {
    /// The human-readable message. For a file or JSON error it is a fixed
    /// prefix followed by the outside error's own text; otherwise it is
    /// `io_error_message`.
    pub fn message(&self) -> (s: String)
        ensures
            match *self {
                IoError::Io(_) => io_error_message(*self).is_prefix_of(s@),
                IoError::Serde(_) => io_error_message(*self).is_prefix_of(s@),
                _ => s@ == io_error_message(*self),
            },
    {
        match self {
            IoError::Io(e) => {
                let mut s = String::from_str("file I/O error: ");
                let t = io_error_text(e);
                s.append(t.as_str());
                proof {
                    reveal_strlit("file I/O error: ");
                    assert(s@.subrange(0, io_error_message(*self).len() as int) =~= io_error_message(*self));
                }
                s
            },
            IoError::Serde(e) => {
                let mut s = String::from_str("JSON error: ");
                let t = json_error_text(e);
                s.append(t.as_str());
                proof {
                    reveal_strlit("JSON error: ");
                    assert(s@.subrange(0, io_error_message(*self).len() as int) =~= io_error_message(*self));
                }
                s
            },
            IoError::UnsupportedSchemaVersion(v) => {
                let mut s = String::from_str("unsupported schema_version: ");
                push_decimal(&mut s, *v as u64);
                s
            },
            IoError::UnsupportedUnits(u) => {
                let mut s = String::from_str("unsupported units: ");
                s.append(u.as_str());
                s
            },
            IoError::Validation(report) => {
                let mut s = String::from_str("validation failed with ");
                push_decimal(&mut s, report.issues.len() as u64);
                s.append(" issue(s)");
                s
            },
            IoError::RoundTripMismatch => String::from_str("saved file did not round-trip to an identical project"),
        }
    }
}

/// A project may be saved only when its drawing has no structural error:
/// refused with the validation report otherwise.
pub fn validate_for_save<G, Pt, L>(project: &Project<G, Pt, L>) -> (r: Result<(), IoError>)
    ensures
        r is Ok <==> references_resolve(project.drawing@),
        r is Err ==> r->Err_0 is Validation && r->Err_0->Validation_0@ == structural_issues(project.drawing@),
{
    let report = project.drawing.validate();
    proof {
        lemma_validation_errors_iff_unresolved(project.drawing@);
    }
    if report.has_errors() {
        Err(IoError::Validation(report))
    } else {
        Ok(())
    }
}

/// Accepts a project read from a file that declared `schema_version` and
/// `units`: refused when the version is not the current one, then when the
/// units are not millimetres, then when the drawing has a structural error.
pub fn check_loaded_project<G, Pt, L>(
    schema_version: u32,
    units: String,
    project: Project<G, Pt, L>,
) -> (r: Result<Project<G, Pt, L>, IoError>)
    ensures
        schema_version != CURRENT_SCHEMA_VERSION ==> (r matches Err(IoError::UnsupportedSchemaVersion(v)) && v == schema_version),
        schema_version == CURRENT_SCHEMA_VERSION && units@ != SUPPORTED_UNITS@ ==> (r matches Err(IoError::UnsupportedUnits(u)) && u@ == units@),
        schema_version == CURRENT_SCHEMA_VERSION && units@ == SUPPORTED_UNITS@ ==> {
            &&& (r is Ok <==> references_resolve(project.drawing@))
            &&& r is Ok ==> r->Ok_0 == project
            &&& r is Err ==> r->Err_0 is Validation && r->Err_0->Validation_0@ == structural_issues(project.drawing@)
        },
{
    if schema_version != CURRENT_SCHEMA_VERSION {
        return Err(IoError::UnsupportedSchemaVersion(schema_version));
    }
    let supported = String::from_str(SUPPORTED_UNITS);
    if units != supported {
        return Err(IoError::UnsupportedUnits(units));
    }
    let report = project.drawing.validate();
    proof {
        lemma_validation_errors_iff_unresolved(project.drawing@);
    }
    if report.has_errors() {
        return Err(IoError::Validation(report));
    }
    Ok(project)
}

/// The name of a backup of the project with this stem, written at `millis`
/// milliseconds with sequence number `seq`:
/// `<stem>_<millis, 16 digits>_<seq, 6 digits>.cadproj`. The fixed widths
/// make the character order of names follow time order.
pub open spec fn backup_name(stem: Seq<char>, millis: nat, seq: nat) -> Seq<char> {
    stem + "_"@ + padded_decimal(millis, 16) + "_"@ + padded_decimal(seq, 6) + ".cadproj"@
}

/// Builds the backup file name (see `backup_name`).
pub fn backup_file_name(stem: &str, millis: u128, seq: u32) -> (r: String)
    ensures
        r@ == backup_name(stem@, millis as nat, seq as nat),
{
    let mut s = String::from_str(stem);
    s.append("_");
    push_padded_decimal(&mut s, millis, 16);
    s.append("_");
    push_padded_decimal(&mut s, seq as u128, 6);
    s.append(".cadproj");
    s
}

/// Backup names sort by time: for one stem, a backup name comes before
/// another exactly when it was written earlier, that is with a smaller
/// millisecond stamp, or the same stamp and a smaller sequence number
/// (stamps below 10^16, sequence numbers below 10^6).
pub proof fn lemma_backup_names_sort_by_time(stem: Seq<char>, m1: nat, q1: nat, m2: nat, q2: nat)
    requires
        m1 < pow10(16),
        m2 < pow10(16),
        q1 < pow10(6),
        q2 < pow10(6),
    ensures
        text_lt(backup_name(stem, m1, q1), backup_name(stem, m2, q2)) == (m1 < m2 || (m1 == m2 && q1 < q2)),
{
    let pre = stem + "_"@;
    let c = ".cadproj"@;
    let p1 = padded_decimal(m1, 16);
    let p2 = padded_decimal(m2, 16);
    let r1 = padded_decimal(q1, 6);
    let r2 = padded_decimal(q2, 6);
    let u1 = "_"@ + (r1 + c);
    let u2 = "_"@ + (r2 + c);
    assert(backup_name(stem, m1, q1) =~= pre + (p1 + u1));
    assert(backup_name(stem, m2, q2) =~= pre + (p2 + u2));
    lemma_padded_order(m1, m2, 16);
    lemma_padded_order(q1, q2, 6);
    lemma_padded_order(m2, m1, 16);
    lemma_padded_order(q2, q1, 6);
    lemma_text_lt_irreflexive(pre);
    lemma_text_lt_irreflexive("_"@);
    lemma_text_lt_irreflexive(c);
    lemma_text_lt_concat(pre, p1 + u1, pre, p2 + u2);
    lemma_text_lt_concat(p1, u1, p2, u2);
    lemma_text_lt_concat("_"@, r1 + c, "_"@, r2 + c);
    lemma_text_lt_concat(r1, c, r2, c);
}

/// Whether `name` is a backup of the project with this stem: it has exactly
/// the form `backup_name` writes, `<stem>_`, 16 digits, `_`, 6 digits and
/// `.cadproj`.
pub open spec fn is_backup_name(name: Seq<char>, stem: Seq<char>) -> bool {
    let n = stem.len() as int;
    &&& name.len() == n + 32
    &&& stem.is_prefix_of(name)
    &&& name[n] == '_'
    &&& digits_in(name, n + 1, 16)
    &&& name[n + 17] == '_'
    &&& digits_in(name, n + 18, 6)
    &&& ".cadproj"@.is_suffix_of(name)
}

/// Whether `name` is a backup of the project with this stem (see `is_backup_name`).
pub fn is_backup_of(name: &str, stem: &str) -> (b: bool)
    ensures
        b == is_backup_name(name@, stem@),
{
    let n = stem.unicode_len();
    let len = name.unicode_len();
    if len < n || len - n != 32 {
        return false;
    }
    if !starts_with(name, stem) {
        return false;
    }
    if name.get_char(n) != '_' {
        return false;
    }
    if !digits_at(name, n + 1, 16) {
        return false;
    }
    if name.get_char(n + 17) != '_' {
        return false;
    }
    if !digits_at(name, n + 18, 6) {
        return false;
    }
    ends_with(name, ".cadproj")
}

/// Every name `backup_name` writes (stamps below 10^16, sequence numbers
/// below 10^6) is a backup of its own project and of no other: a backup
/// name determines its stem.
pub proof fn lemma_backup_names_belong_to_their_project(stem: Seq<char>, m: nat, q: nat, other: Seq<char>)
    requires
        m < pow10(16),
        q < pow10(6),
    ensures
        is_backup_name(backup_name(stem, m, q), stem),
        is_backup_name(backup_name(stem, m, q), other) ==> other == stem,
{
    reveal_strlit("_");
    reveal_strlit(".cadproj");
    let p = padded_decimal(m, 16);
    let r = padded_decimal(q, 6);
    lemma_padded_digits(m, 16);
    lemma_padded_digits(q, 6);
    let name = backup_name(stem, m, q);
    let n = stem.len() as int;
    assert(name =~= stem + seq!['_'] + p + seq!['_'] + r + ".cadproj"@);
    assert(name.subrange(0, n) =~= stem);
    assert forall|i: int| n + 1 <= i < n + 17 implies is_digit(#[trigger] name[i]) by {
        assert(name[i] == p[i - n - 1]);
    }
    assert forall|i: int| n + 18 <= i < n + 24 implies is_digit(#[trigger] name[i]) by {
        assert(name[i] == r[i - n - 18]);
    }
    assert(name.subrange(name.len() - 8, name.len() as int) =~= ".cadproj"@);
    lemma_backup_name_has_one_stem(name, stem, other);
}

/// A name is a backup of at most one project.
proof fn lemma_backup_name_has_one_stem(name: Seq<char>, s1: Seq<char>, s2: Seq<char>)
    requires
        is_backup_name(name, s1),
    ensures
        is_backup_name(name, s2) ==> s1 == s2,
{
    if is_backup_name(name, s2) {
        assert(s1.len() == s2.len());
        assert(s1 =~= name.subrange(0, s1.len() as int));
        assert(s2 =~= name.subrange(0, s2.len() as int));
    }
}

/// The names among `names` that are backups of the project with this stem, in order.
pub open spec fn backup_candidates(names: Seq<Seq<char>>, stem: Seq<char>) -> Seq<Seq<char>> {
    names.filter(|n: Seq<char>| is_backup_name(n, stem))
}

/// The strings of a vector taken as character sequences.
pub open spec fn texts(v: Seq<String>) -> Seq<Seq<char>> {
    v.map_values(|s: String| s@)
}

/// A sequence of texts in non-decreasing character order.
pub open spec fn texts_sorted(s: Seq<Seq<char>>) -> bool {
    forall|i: int, j: int| 0 <= i < j < s.len() ==> !text_lt(#[trigger] s[j], #[trigger] s[i])
}

/// The backups of the project with this stem among `names`, in order.
pub fn select_backups(names: &Vec<String>, stem: &str) -> (r: Vec<String>)
    ensures
        texts(r@) == backup_candidates(texts(names@), stem@),
{
    let mut out: Vec<String> = Vec::new();
    let ghost pred = |n: Seq<char>| is_backup_name(n, stem@);
    let mut i: usize = 0;
    while i < names.len()
        invariant
            i <= names@.len(),
            pred == (|n: Seq<char>| is_backup_name(n, stem@)),
            texts(out@) == texts(names@).take(i as int).filter(pred),
        decreases names@.len() - i,
    {
        reveal_with_fuel(Seq::filter, 1);
        assert(texts(names@).take(i + 1).drop_last() =~= texts(names@).take(i as int));
        if is_backup_of(names[i].as_str(), stem) {
            out.push(names[i].clone());
            assert(texts(out@) =~= texts(names@).take(i as int).filter(pred).push(names@[i as int]@));
        } else {
            assert(texts(out@) =~= texts(names@).take(i as int).filter(pred));
        }
        i = i + 1;
    }
    assert(texts(names@).take(names@.len() as int) =~= texts(names@));
    out
}

/// Sorts strings into non-decreasing character order (a stable insertion sort).
pub fn sort_texts(v: Vec<String>) -> (r: Vec<String>)
    ensures
        texts_sorted(texts(r@)),
        texts(r@).to_multiset() == texts(v@).to_multiset(),
        r@.len() == v@.len(),
{
    let mut out: Vec<String> = Vec::new();
    let mut rest = v;
    let ghost all = texts(rest@);
    let mut taken: usize = 0;
    let n = rest.len();
    while taken < n
        invariant
            n == all.len(),
            taken <= n,
            rest@.len() == n - taken,
            texts(rest@) == all.skip(taken as int),
            texts_sorted(texts(out@)),
            texts(out@).to_multiset() == all.take(taken as int).to_multiset(),
            out@.len() == taken,
        decreases n - taken,
    {
        let x = rest.remove(0);
        assert(texts(rest@) =~= all.skip(taken + 1));
        assert(all.skip(taken as int)[0] == x@);
        let ghost before = texts(out@);
        let mut p: usize = 0;
        while p < out.len() && !text_less(x.as_str(), out[p].as_str())
            invariant
                p <= out@.len(),
                before == texts(out@),
                forall|j: int| 0 <= j < p ==> !text_lt(x@, #[trigger] before[j]),
            decreases out@.len() - p,
        {
            p = p + 1;
        }
        out.insert(p, x);
        proof {
            let now = texts(out@);
            assert(now =~= before.insert(p as int, x@));
            assert forall|i: int, j: int| 0 <= i < j < now.len() implies !text_lt(#[trigger] now[j], #[trigger] now[i]) by {
                if i < p && j == p {
                    lemma_text_lt_total(x@, before[i]);
                    lemma_text_lt_irreflexive(x@);
                    if text_lt(x@, before[i]) {
                    } else if x@ == before[i] {
                    } else {
                        assert(text_lt(before[i], x@));
                        if text_lt(x@, before[i]) {
                            lemma_text_lt_transitive(x@, before[i], x@);
                        }
                    }
                } else if i == p && j > p {
                    assert(p < before.len());
                    assert(text_lt(x@, before[p as int]));
                    assert(now[j] == before[j - 1]);
                    if text_lt(before[j - 1], x@) {
                        if j - 1 > p {
                            assert(!text_lt(before[j - 1], before[p as int]));
                            lemma_text_lt_transitive(before[j - 1], x@, before[p as int]);
                        } else {
                            lemma_text_lt_transitive(x@, before[p as int], x@);
                            lemma_text_lt_irreflexive(x@);
                        }
                    }
                } else if i < p && j > p {
                    assert(now[i] == before[i]);
                    assert(now[j] == before[j - 1]);
                } else if i < p && j < p {
                    assert(now[i] == before[i]);
                    assert(now[j] == before[j]);
                } else {
                    assert(now[i] == before[i - 1]);
                    assert(now[j] == before[j - 1]);
                }
            }
            assert(all.take(taken + 1) =~= all.take(taken as int).push(x@));
        }
        taken = taken + 1;
    }
    assert(all.take(n as int) =~= all);
    out
}

/// `s` is the candidates `c` arranged in non-decreasing character order.
pub open spec fn sorted_arrangement(s: Seq<Seq<char>>, c: Seq<Seq<char>>) -> bool {
    &&& texts_sorted(s)
    &&& s.to_multiset() == c.to_multiset()
}

/// How many of `n` backups pruning deletes: all but the `MAX_BACKUPS` most recent.
pub open spec fn prune_count(n: nat) -> nat {
    if n > MAX_BACKUPS {
        (n - MAX_BACKUPS) as nat
    } else {
        0
    }
}

/// The backups of the project with this stem that pruning deletes: with
/// the backups sorted by name (so by time), all but the `MAX_BACKUPS` last.
pub fn backups_to_prune(names: &Vec<String>, stem: &str) -> (r: Vec<String>)
    ensures
        exists|s: Seq<Seq<char>>|
            #[trigger] sorted_arrangement(s, backup_candidates(texts(names@), stem@)) && texts(r@) == s.take(
                prune_count(s.len()) as int,
            ),
{
    let candidates = select_backups(names, stem);
    let mut sorted = sort_texts(candidates);
    let ghost s = texts(sorted@);
    let n = sorted.len();
    proof {
        s.to_multiset_ensures();
        backup_candidates(texts(names@), stem@).to_multiset_ensures();
    }
    if n > MAX_BACKUPS {
        sorted.truncate(n - MAX_BACKUPS);
    } else {
        sorted.truncate(0);
    }
    assert(texts(sorted@) =~= s.take(prune_count(s.len()) as int));
    assert(sorted_arrangement(s, backup_candidates(texts(names@), stem@)));
    sorted
}

/// The most recent backup of the project with this stem: the greatest
/// backup name in character order, or none when there is no backup.
pub fn latest_backup_name(names: &Vec<String>, stem: &str) -> (r: Option<String>)
    ensures
        r is None <==> backup_candidates(texts(names@), stem@).len() == 0,
        r is Some ==> {
            let c = backup_candidates(texts(names@), stem@);
            &&& c.contains(r->Some_0@)
            &&& forall|i: int| 0 <= i < c.len() ==> !text_lt(r->Some_0@, #[trigger] c[i])
        },
{
    let candidates = select_backups(names, stem);
    let ghost c = texts(candidates@);
    let mut sorted = sort_texts(candidates);
    let ghost s = texts(sorted@);
    proof {
        s.to_multiset_ensures();
        c.to_multiset_ensures();
    }
    let last = sorted.pop();
    proof {
        match &last {
            Some(m) => {
                assert(s.last() == m@);
                assert(s.contains(m@));
                assert(c.to_multiset().count(m@) > 0);
                assert forall|i: int| 0 <= i < c.len() implies !text_lt(m@, #[trigger] c[i]) by {
                    assert(c.contains(c[i]));
                    assert(s.to_multiset().count(c[i]) > 0);
                    let j = choose|j: int| 0 <= j < s.len() && s[j] == c[i];
                    if j < s.len() - 1 {
                        assert(!text_lt(s[s.len() - 1], s[j]));
                    } else {
                        lemma_text_lt_irreflexive(m@);
                    }
                }
            },
            None => {},
        }
    }
    last
}

/// The text with `&`, `<` and `>` replaced by `&amp;`, `&lt;` and `&gt;`.
pub open spec fn escaped(text: Seq<char>) -> Seq<char>
    decreases text.len(),
{
    if text.len() == 0 {
        seq![]
    } else {
        let c = text.last();
        let tail = if c == '&' {
            "&amp;"@
        } else if c == '<' {
            "&lt;"@
        } else if c == '>' {
            "&gt;"@
        } else {
            seq![c]
        };
        escaped(text.drop_last()) + tail
    }
}

/// Escaped text holds no `<` and no `>`, so it cannot open or close a tag.
pub proof fn lemma_escaped_has_no_angle_brackets(text: Seq<char>)
    ensures
        forall|i: int| 0 <= i < escaped(text).len() ==> #[trigger] escaped(text)[i] != '<' && escaped(text)[i] != '>',
    decreases text.len(),
{
    if text.len() > 0 {
        lemma_escaped_has_no_angle_brackets(text.drop_last());
        reveal_strlit("&amp;");
        reveal_strlit("&lt;");
        reveal_strlit("&gt;");
        let before = escaped(text.drop_last());
        let c = text.last();
        let tail = if c == '&' {
            "&amp;"@
        } else if c == '<' {
            "&lt;"@
        } else if c == '>' {
            "&gt;"@
        } else {
            seq![c]
        };
        assert forall|i: int| 0 <= i < escaped(text).len() implies #[trigger] escaped(text)[i] != '<' && escaped(text)[i] != '>' by {
            if i < before.len() {
                assert(escaped(text)[i] == before[i]);
            } else {
                assert(escaped(text)[i] == tail[i - before.len()]);
            }
        }
    }
}

/// Escapes text for use inside an XML element (see `escaped`).
pub fn escape_xml(text: &str) -> (r: String)
    ensures
        r@ == escaped(text@),
{
    let n = text.unicode_len();
    let mut out = String::new();
    let mut i: usize = 0;
    while i < n
        invariant
            i <= n,
            n == text@.len(),
            out@ == escaped(text@.take(i as int)),
        decreases n - i,
    {
        let c = text.get_char(i);
        assert(text@.take(i + 1).drop_last() =~= text@.take(i as int));
        assert(text@.take(i + 1).last() == c);
        if c == '&' {
            out.append("&amp;");
        } else if c == '<' {
            out.append("&lt;");
        } else if c == '>' {
            out.append("&gt;");
        } else {
            push_char(&mut out, c);
        }
        i = i + 1;
    }
    assert(text@.take(n as int) =~= text@);
    out
}

/// Calls `String::push`; the character is appended.
#[verifier::external_body]
fn push_char(s: &mut String, c: char)
    ensures
        final(s)@ == old(s)@.push(c),
{
    s.push(c)
}

} // verus!
