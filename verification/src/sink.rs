//! The artifact sink policy: incremental writes with idempotent skip.
//!
//! A written script file is named from its test name and framed with a
//! header; a file that already exists is skipped unless overwriting was
//! requested, so repeated builds over the same output directory are
//! safe and incremental. The manifest records every artifact of a run,
//! written or skipped, in completion order.

use vstd::prelude::*;
use vstd::string::StringExecFns;
use crate::filename::{spec_test_filename, test_name_to_filename};

verus! {

/// What one artifact write decided.
pub enum WriteOutcome {
    Written,
    Skipped,
}

/// The sink's skip-on-exists policy: an artifact is written unless its
/// file already exists and overwriting is off.
pub fn write_decision(exists: bool, overwrite: bool) -> (o: WriteOutcome)
    ensures
        o is Written <==> (overwrite || !exists),
{
    if exists && !overwrite {
        WriteOutcome::Skipped
    } else {
        WriteOutcome::Written
    }
}

/// One manifest record: a monotonically increasing id, the artifact's
/// name, and the file it maps to.
pub struct ManifestEntry {
    pub id: usize,
    pub name: String,
    pub file: String,
}

/// The content written for one generated script: the test-name header
/// line, the tool-attribution line, a blank line, then the code.
pub open spec fn spec_script_content(name: Seq<char>, code: Seq<char>) -> Seq<char> {
    "// Test: "@ + name + "\n// Generated by Rohan\n\n"@ + code
}

/// Frame one generated script with its header comment.
pub fn script_content(name: &str, code: &str) -> (r: String)
    ensures
        r@ == spec_script_content(name@, code@),
{
    let mut s = String::from_str("// Test: ");
    s.append(name);
    s.append("\n// Generated by Rohan\n\n");
    s.append(code);
    s
}

/// The directory contents described by an association list, later
/// entries shadowing earlier ones.
pub open spec fn map_of(entries: Seq<(Seq<char>, Seq<char>)>) -> Map<Seq<char>, Seq<char>>
    decreases entries.len(),
{
    if entries.len() == 0 {
        Map::<Seq<char>, Seq<char>>::empty()
    } else {
        map_of(entries.drop_last()).insert(entries.last().0, entries.last().1)
    }
}

/// A name is in the directory exactly when some entry carries it.
proof fn lemma_map_of_dom(entries: Seq<(Seq<char>, Seq<char>)>, k: Seq<char>)
    ensures
        map_of(entries).dom().contains(k) <==> exists|i: int|
            0 <= i < entries.len() && #[trigger] entries[i].0 == k,
    decreases entries.len(),
{
    if entries.len() > 0 {
        lemma_map_of_dom(entries.drop_last(), k);
        if entries.last().0 == k {
            assert(entries[entries.len() - 1].0 == k);
        } else {
            if exists|i: int| 0 <= i < entries.drop_last().len() && #[trigger] entries.drop_last()[i].0 == k {
                let w = choose|i: int|
                    0 <= i < entries.drop_last().len() && #[trigger] entries.drop_last()[i].0 == k;
                assert(entries[w].0 == k);
            }
            if exists|i: int| 0 <= i < entries.len() && #[trigger] entries[i].0 == k {
                let w = choose|i: int| 0 <= i < entries.len() && #[trigger] entries[i].0 == k;
                assert(w < entries.len() - 1);
                assert(entries.drop_last()[w].0 == k);
            }
        }
    }
}

/// An in-memory stand-in for the output directory: the file names and
/// contents the sink has written, latest write winning.
pub struct FileStore {
    entries: Vec<(String, String)>,
}

impl View for FileStore {
    type V = Map<Seq<char>, Seq<char>>;

    closed spec fn view(&self) -> Map<Seq<char>, Seq<char>> {
        map_of(self.entries@.map_values(|p: (String, String)| (p.0@, p.1@)))
    }
}

impl FileStore {
    /// An empty directory.
    pub fn new() -> (r: FileStore)
        ensures
            r@ == Map::<Seq<char>, Seq<char>>::empty(),
    {
        let r = FileStore { entries: Vec::new() };
        proof {
            assert(r.entries@.map_values(|p: (String, String)| (p.0@, p.1@)) =~= Seq::<(
                Seq<char>,
                Seq<char>,
            )>::empty());
        }
        r
    }

    /// Whether a file of this name exists.
    pub fn contains(&self, name: &String) -> (r: bool)
        ensures
            r == self@.dom().contains(name@),
    {
        let ghost views = self.entries@.map_values(|p: (String, String)| (p.0@, p.1@));
        let n = self.entries.len();
        let mut i: usize = 0;
        while i < n
            invariant
                i <= n,
                n == self.entries@.len(),
                views == self.entries@.map_values(|p: (String, String)| (p.0@, p.1@)),
                forall|j: int| 0 <= j < i ==> #[trigger] views[j].0 != name@,
            decreases n - i,
        {
            if self.entries[i].0 == *name {
                proof {
                    assert(views[i as int].0 == name@);
                    lemma_map_of_dom(views, name@);
                }
                return true;
            }
            i = i + 1;
        }
        proof {
            lemma_map_of_dom(views, name@);
        }
        false
    }

    /// Write or skip one artifact: an existing file is only replaced
    /// when overwriting was requested.
    pub fn sink_write(&mut self, name: &String, content: &String, overwrite: bool) -> (o:
        WriteOutcome)
        ensures
            o is Written <==> (overwrite || !old(self)@.dom().contains(name@)),
            o is Written ==> final(self)@ == old(self)@.insert(name@, content@),
            o is Skipped ==> final(self)@ == old(self)@,
    {
        if !overwrite && self.contains(name) {
            return WriteOutcome::Skipped;
        }
        let ghost before = self.entries@.map_values(|p: (String, String)| (p.0@, p.1@));
        self.entries.push((name.clone(), content.clone()));
        proof {
            let after = self.entries@.map_values(|p: (String, String)| (p.0@, p.1@));
            assert(after.drop_last() =~= before);
            assert(after.last() == (name@, content@));
        }
        WriteOutcome::Written
    }
}

/// The directory after one build pass over the artifacts, in order:
/// each (name, code) artifact lands in its derived file name unless the
/// file already exists and overwriting is off.
pub open spec fn spec_build(
    dir: Map<Seq<char>, Seq<char>>,
    arts: Seq<(Seq<char>, Seq<char>)>,
    overwrite: bool,
) -> Map<Seq<char>, Seq<char>>
    decreases arts.len(),
{
    if arts.len() == 0 {
        dir
    } else {
        let prev = spec_build(dir, arts.drop_last(), overwrite);
        let fname = spec_test_filename(arts.last().0);
        if overwrite || !prev.dom().contains(fname) {
            prev.insert(fname, spec_script_content(arts.last().0, arts.last().1))
        } else {
            prev
        }
    }
}

/// Building never removes files, and afterwards every artifact's file
/// exists.
proof fn lemma_build_covers(
    dir: Map<Seq<char>, Seq<char>>,
    arts: Seq<(Seq<char>, Seq<char>)>,
    overwrite: bool,
)
    ensures
        forall|k: Seq<char>|
            dir.dom().contains(k) ==> #[trigger] spec_build(dir, arts, overwrite).dom().contains(k),
        forall|i: int|
            0 <= i < arts.len() ==> spec_build(dir, arts, overwrite).dom().contains(
                spec_test_filename(#[trigger] arts[i].0),
            ),
    decreases arts.len(),
{
    if arts.len() > 0 {
        let head = arts.drop_last();
        lemma_build_covers(dir, head, overwrite);
        let prev = spec_build(dir, head, overwrite);
        let r = spec_build(dir, arts, overwrite);
        let lastf = spec_test_filename(arts.last().0);
        assert(r.dom().contains(lastf));
        assert forall|k: Seq<char>| prev.dom().contains(k) implies r.dom().contains(k) by {
        }
        assert forall|i: int| 0 <= i < arts.len() implies r.dom().contains(
            spec_test_filename(#[trigger] arts[i].0),
        ) by {
            if i < arts.len() - 1 {
                assert(head[i] == arts[i]);
                assert(prev.dom().contains(spec_test_filename(head[i].0)));
            } else {
                assert(arts[i] == arts.last());
            }
        }
    }
}

/// A build pass over a directory that already holds every artifact's
/// file changes nothing when overwriting is off.
proof fn lemma_build_noop(dir: Map<Seq<char>, Seq<char>>, arts: Seq<(Seq<char>, Seq<char>)>)
    requires
        forall|i: int|
            0 <= i < arts.len() ==> dir.dom().contains(spec_test_filename(#[trigger] arts[i].0)),
    ensures
        spec_build(dir, arts, false) == dir,
    decreases arts.len(),
{
    if arts.len() > 0 {
        assert(forall|i: int|
            0 <= i < arts.len() - 1 ==> arts.drop_last()[i] == #[trigger] arts[i]);
        lemma_build_noop(dir, arts.drop_last());
        assert(arts[arts.len() - 1] == arts.last());
    }
}

/// Idempotent build: running the build phase twice over the same
/// output directory without overwriting yields the same directory as
/// running it once.
pub proof fn lemma_build_idempotent(
    dir: Map<Seq<char>, Seq<char>>,
    arts: Seq<(Seq<char>, Seq<char>)>,
)
    ensures
        spec_build(spec_build(dir, arts, false), arts, false) == spec_build(dir, arts, false),
{
    let once = spec_build(dir, arts, false);
    lemma_build_covers(dir, arts, false);
    lemma_build_noop(once, arts);
}

/// One build pass: write or skip each artifact in completion order,
/// and record every artifact in the manifest, ids counting up from 1.
pub fn build_scripts(store: &mut FileStore, scripts: &Vec<(String, String)>, overwrite: bool)
    -> (manifest: Vec<ManifestEntry>)
    ensures
        final(store)@ == spec_build(
            old(store)@,
            scripts@.map_values(|p: (String, String)| (p.0@, p.1@)),
            overwrite,
        ),
        manifest@.len() == scripts@.len(),
        forall|i: int| 0 <= i < scripts@.len() ==> {
            &&& (#[trigger] manifest@[i]).id == i + 1
            &&& manifest@[i].name@ == scripts@[i].0@
            &&& manifest@[i].file@ == spec_test_filename(scripts@[i].0@)
        },
{
    let ghost arts = scripts@.map_values(|p: (String, String)| (p.0@, p.1@));
    let mut manifest: Vec<ManifestEntry> = Vec::new();
    let n = scripts.len();
    let mut i: usize = 0;
    while i < n
        invariant
            i <= n,
            n == scripts@.len(),
            arts == scripts@.map_values(|p: (String, String)| (p.0@, p.1@)),
            store@ == spec_build(old(store)@, arts.take(i as int), overwrite),
            manifest@.len() == i,
            forall|j: int| 0 <= j < i ==> {
                &&& (#[trigger] manifest@[j]).id == j + 1
                &&& manifest@[j].name@ == scripts@[j].0@
                &&& manifest@[j].file@ == spec_test_filename(scripts@[j].0@)
            },
        decreases n - i,
    {
        let name: &String = &scripts[i].0;
        let code: &String = &scripts[i].1;
        let fname = test_name_to_filename(name.as_str());
        let content = script_content(name.as_str(), code.as_str());
        let _ = store.sink_write(&fname, &content, overwrite);
        manifest.push(ManifestEntry { id: i + 1, name: name.clone(), file: fname });
        i = i + 1;
        proof {
            assert(arts.take(i as int).drop_last() =~= arts.take(i as int - 1));
            assert(arts.take(i as int).last() == arts[i as int - 1]);
        }
    }
    proof {
        assert(arts.take(n as int) =~= arts);
    }
    manifest
}

} // verus!

verus! {

/// The decimal digit character for one digit value.
pub open spec fn digit_char(d: int) -> char {
    ((48 + d) as u32) as char
}

/// The decimal digits of a number, most significant first.
pub open spec fn spec_digits(n: int) -> Seq<char>
    decreases n,
{
    if n < 10 {
        seq![digit_char(n)]
    } else {
        spec_digits(n / 10) + seq![digit_char(n % 10)]
    }
}

/// Append the decimal digits of `n`.
fn push_digits(out: &mut Vec<char>, n: u64)
    ensures
        final(out)@ == old(out)@ + spec_digits(n as int),
    decreases n,
{
    if n < 10 {
        let b: u8 = (48 + (n as u8));
        out.push(b as char);
        proof {
            assert(out@ =~= old(out)@ + spec_digits(n as int));
        }
    } else {
        push_digits(out, n / 10);
        let b: u8 = (48 + ((n % 10) as u8));
        out.push(b as char);
        proof {
            assert(out@ =~= old(out)@ + spec_digits(n as int));
        }
    }
}

/// One manifest record's document text.
pub open spec fn spec_manifest_record(id: int, name: Seq<char>, file: Seq<char>) -> Seq<char> {
    seq!['{', '"', 'i', 'd', '"', ':'] + spec_digits(id) + seq![',', '"', 'n', 'a', 'm', 'e',
        '"', ':'] + crate::json::spec_emit_text(name) + seq![',', '"', 'f', 'i', 'l', 'e', '"',
        ':'] + crate::json::spec_emit_text(file) + seq!['}']
}

/// The manifest records of an entry vector, from `i` on.
pub open spec fn manifest_views(v: Vec<ManifestEntry>, i: int) -> Seq<(int, Seq<char>, Seq<char>)>
    decreases v@.len() - i,
{
    if i < 0 || i >= v@.len() {
        Seq::<(int, Seq<char>, Seq<char>)>::empty()
    } else {
        seq![(v@[i].id as int, v@[i].name@, v@[i].file@)] + manifest_views(v, i + 1)
    }
}

/// The comma-separated manifest records.
pub open spec fn spec_manifest_records(rs: Seq<(int, Seq<char>, Seq<char>)>) -> Seq<char>
    decreases rs.len(),
{
    if rs.len() == 0 {
        Seq::<char>::empty()
    } else {
        let one = spec_manifest_record(rs[0].0, rs[0].1, rs[0].2);
        if rs.len() == 1 {
            one
        } else {
            one + seq![','] + spec_manifest_records(rs.drop_first())
        }
    }
}

/// The whole manifest document: a JSON array of records.
pub open spec fn spec_manifest(rs: Seq<(int, Seq<char>, Seq<char>)>) -> Seq<char> {
    seq!['['] + spec_manifest_records(rs) + seq![']']
}

/// Append one quoted, escaped string (shared with the JSON emitter).
fn push_quoted(out: &mut Vec<char>, s: &str)
    ensures
        final(out)@ == old(out)@ + crate::json::spec_emit_text(s@),
{
    let cs = crate::strutil::str_to_chars(s);
    crate::json::push_text_pub(out, &cs);
}

/// Append one manifest record.
fn push_manifest_record(out: &mut Vec<char>, e: &ManifestEntry)
    requires
        e.id <= u64::MAX,
    ensures
        final(out)@ == old(out)@ + spec_manifest_record(e.id as int, e.name@, e.file@),
{
    out.push('{');
    out.push('"');
    out.push('i');
    out.push('d');
    out.push('"');
    out.push(':');
    push_digits(out, e.id as u64);
    out.push(',');
    out.push('"');
    out.push('n');
    out.push('a');
    out.push('m');
    out.push('e');
    out.push('"');
    out.push(':');
    push_quoted(out, e.name.as_str());
    out.push(',');
    out.push('"');
    out.push('f');
    out.push('i');
    out.push('l');
    out.push('e');
    out.push('"');
    out.push(':');
    push_quoted(out, e.file.as_str());
    out.push('}');
    proof {
        assert(out@ =~= old(out)@ + spec_manifest_record(e.id as int, e.name@, e.file@));
    }
}

/// Serialize the manifest: one record per artifact of the run, flushed
/// wholesale at the end of a build.
pub fn manifest_to_text(entries: &Vec<ManifestEntry>) -> (r: String)
    ensures
        r@ == spec_manifest(manifest_views(*entries, 0)),
{
    let mut out: Vec<char> = Vec::new();
    out.push('[');
    let n = entries.len();
    if n > 0 {
        push_manifest_records_from(entries, 0, &mut out);
    }
    out.push(']');
    proof {
        if n == 0 {
            assert(manifest_views(*entries, 0) == Seq::<(int, Seq<char>, Seq<char>)>::empty());
            assert(spec_manifest_records(manifest_views(*entries, 0)) == Seq::<char>::empty());
        }
        assert(out@ =~= seq!['['] + spec_manifest_records(manifest_views(*entries, 0))
            + seq![']']);
    }
    crate::strutil::chars_to_string(&out)
}

/// Append the records from `i` on, comma-separated.
fn push_manifest_records_from(entries: &Vec<ManifestEntry>, i: usize, out: &mut Vec<char>)
    requires
        i < entries@.len(),
    ensures
        final(out)@ == old(out)@ + spec_manifest_records(manifest_views(*entries, i as int)),
    decreases entries@.len() - i,
{
    let ghost suffix = manifest_views(*entries, i as int);
    proof {
        lemma_manifest_views_len(*entries, i as int);
        lemma_manifest_views_len(*entries, i as int + 1);
        assert(suffix[0] == (entries@[i as int].id as int, entries@[i as int].name@,
            entries@[i as int].file@));
        assert(suffix.drop_first() =~= manifest_views(*entries, i as int + 1));
    }
    push_manifest_record(out, &entries[i]);
    if i < entries.len() - 1 {
        out.push(',');
        push_manifest_records_from(entries, i + 1, out);
        proof {
            assert(out@ =~= old(out)@ + spec_manifest_records(suffix));
        }
    } else {
        proof {
            assert(suffix.len() == 1);
            assert(out@ =~= old(out)@ + spec_manifest_records(suffix));
        }
    }
}

/// The records from `i` on are as many as remain.
proof fn lemma_manifest_views_len(v: Vec<ManifestEntry>, i: int)
    requires
        0 <= i <= v@.len(),
    ensures
        manifest_views(v, i).len() == v@.len() - i,
    decreases v@.len() - i,
{
    if i < v@.len() {
        lemma_manifest_views_len(v, i + 1);
    }
}

} // verus!
