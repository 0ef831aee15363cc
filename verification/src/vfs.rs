//! The virtual-file-system mapping: logical-name/physical-path entries,
//! an ordered store with first-match lookup, and the parser and renderer
//! for the persisted `name$path` mapping text.

use vstd::prelude::*;

use crate::text::{copy_range, find_byte, find_byte_at, trim, trim_spaces};

verus! {

/// `$`, the name/path separator of the mapping format.
pub const SEP_BYTE: u8 = 0x24;

/// `\n`, the line delimiter of the mapping format.
pub const NL_BYTE: u8 = 0x0a;

/// `.`
pub const DOT_BYTE: u8 = 0x2e;

/// `/`
pub const SLASH_BYTE: u8 = 0x2f;

/// Mathematical model of one entry: a logical name and the physical
/// path backing it.
pub ghost struct FileView {
    pub name: Seq<u8>,
    pub path: Seq<u8>,
}

/// One logical-name/physical-path record of the mapping.
pub struct File {
    name: Vec<u8>,
    path: Vec<u8>,
}

impl View for File {
    type V = FileView;

    closed spec fn view(&self) -> FileView {
        FileView { name: self.name@, path: self.path@ }
    }
}

/// The default path taken by an entry constructed with an empty path: a
/// same-directory file sharing the logical name.
pub open spec fn default_path(name: Seq<u8>) -> Seq<u8> {
    seq![DOT_BYTE, SLASH_BYTE] + name
}

impl File {
    /// Build an entry; an empty path defaults to `./` + name.
    pub fn new(name: Vec<u8>, path: Vec<u8>) -> (r: File)
        ensures
            r@.name == name@,
            r@.path == if path@.len() == 0 {
                default_path(name@)
            } else {
                path@
            },
    {
        if path.len() == 0 {
            let mut p: Vec<u8> = Vec::new();
            p.push(DOT_BYTE);
            p.push(SLASH_BYTE);
            crate::text::append_bytes(&mut p, name.as_slice());
            assert(p@ =~= default_path(name@));
            File { name, path: p }
        } else {
            File { name, path }
        }
    }

    /// The logical name.
    pub fn get_filename(&self) -> (r: &Vec<u8>)
        ensures
            r@ == self@.name,
    {
        &self.name
    }

    /// The physical path.
    pub fn get_path(&self) -> (r: &Vec<u8>)
        ensures
            r@ == self@.path,
    {
        &self.path
    }

    /// Replace the logical name.
    pub fn set_filename(&mut self, new_name: Vec<u8>)
        ensures
            final(self)@.name == new_name@,
            final(self)@.path == old(self)@.path,
    {
        self.name = new_name;
    }

    /// Replace the physical path.
    pub fn set_path(&mut self, new_path: Vec<u8>)
        ensures
            final(self)@.name == old(self)@.name,
            final(self)@.path == new_path@,
    {
        self.path = new_path;
    }
}

impl Clone for File {
    fn clone(&self) -> (r: File)
        ensures
            r@ == self@,
    {
        File { name: self.name.clone(), path: self.path.clone() }
    }
}

/// First entry of `s` whose name is `name`, if any.
pub open spec fn lookup(s: Seq<FileView>, name: Seq<u8>) -> Option<FileView>
    decreases s.len(),
{
    if s.len() == 0 {
        None
    } else if s[0].name == name {
        Some(s[0])
    } else {
        lookup(s.drop_first(), name)
    }
}

/// `lookup` returns the entry at the least matching index: a name that
/// occurs more than once resolves to its first occurrence, never a
/// later one.
pub proof fn lemma_lookup_first(s: Seq<FileView>, name: Seq<u8>, i: int)
    requires
        0 <= i < s.len(),
        s[i].name == name,
        forall|j: int| 0 <= j < i ==> s[j].name != name,
    ensures
        lookup(s, name) == Some(s[i]),
    decreases s.len(),
{
    if i > 0 {
        assert(s[0].name != name);
        lemma_lookup_first(s.drop_first(), name, i - 1);
        assert(s.drop_first()[i - 1] == s[i]);
    }
}

/// `lookup` fails exactly when no entry bears the name.
pub proof fn lemma_lookup_none(s: Seq<FileView>, name: Seq<u8>)
    ensures
        lookup(s, name) is None <==> forall|i: int|
            0 <= i < s.len() ==> s[i].name != name,
    decreases s.len(),
{
    if s.len() > 0 {
        lemma_lookup_none(s.drop_first(), name);
        assert(forall|i: int|
            1 <= i < s.len() ==> s[i] == s.drop_first()[i - 1]);
    }
}

/// Loading a mapping text and then looking up the name on any of its
/// lines returns that very line's entry — whose path is the line's
/// path portion, or the default `./name` where it was omitted — for
/// every line no earlier line of which bears the same name.
pub proof fn lemma_load_then_lookup(text: Seq<u8>, k: int)
    requires
        0 <= k < parse_entries(text).len(),
        forall|j: int| 0 <= j < k ==> parse_entries(text)[j].name != parse_entries(text)[k].name,
    ensures
        lookup(parse_entries(text), parse_entries(text)[k].name) == Some(parse_entries(text)[k]),
{
    lemma_lookup_first(parse_entries(text), parse_entries(text)[k].name, k);
}

/// A name borne by two entries resolves to the first occurrence's
/// entry and path, never the later one's.
pub proof fn lemma_lookup_first_of_duplicates(s: Seq<FileView>, i: int, j: int)
    requires
        0 <= i < j < s.len(),
        s[i].name == s[j].name,
        forall|k: int| 0 <= k < i ==> s[k].name != s[i].name,
    ensures
        lookup(s, s[i].name) == Some(s[i]),
        lookup(s, s[i].name)->0.path == s[i].path,
{
    lemma_lookup_first(s, s[i].name, i);
}

/// The ordered collection of entries, insertion order preserved.
pub struct Files {
    files: Vec<File>,
}

impl View for Files {
    type V = Seq<FileView>;

    closed spec fn view(&self) -> Seq<FileView> {
        self.files@.map_values(|f: File| f@)
    }
}

impl Files {
    /// An empty store.
    pub fn new() -> (r: Files)
        ensures
            r@ == Seq::<FileView>::empty(),
    {
        let files = Files { files: Vec::new() };
        assert(files@ =~= Seq::<FileView>::empty());
        files
    }

    /// Append an entry to the store.
    pub fn add_file(&mut self, file: File)
        ensures
            final(self)@ == old(self)@.push(file@),
    {
        let ghost fv = file@;
        self.files.push(file);
        assert(self@ =~= old(self)@.push(fv));
    }

    /// Remove every entry whose name is `file_name`.
    pub fn rem_file(&mut self, file_name: &[u8])
        ensures
            final(self)@ == old(self)@.filter(|f: FileView| f.name != file_name@),
    {
        let mut kept: Vec<File> = Vec::new();
        let mut i: usize = 0;
        proof {
            reveal_with_fuel(Seq::filter, 1);
            assert(old(self)@.take(0) =~= Seq::<FileView>::empty());
            assert(old(self)@.take(0).filter(|f: FileView| f.name != file_name@) =~= Seq::<
                FileView,
            >::empty());
        }
        while i < self.files.len()
            invariant
                0 <= i <= self.files@.len(),
                self == old(self),
                kept@.map_values(|f: File| f@) == old(self)@.take(i as int).filter(
                    |f: FileView| f.name != file_name@,
                ),
            decreases self.files@.len() - i,
        {
            let keep = !bytes_equal(self.files[i].get_filename().as_slice(), file_name);
            proof {
                assert(old(self)@.take(i + 1).drop_last() =~= old(self)@.take(i as int));
                assert(old(self)@.take(i + 1).last() == old(self)@[i as int]);
                reveal_with_fuel(Seq::filter, 2);
            }
            if keep {
                let f = self.files[i].clone();
                let ghost fv = f@;
                kept.push(f);
                assert(kept@.map_values(|f: File| f@) =~= kept@.map_values(
                    |f: File| f@,
                ).drop_last().push(fv));
            }
            i = i + 1;
        }
        proof {
            assert(old(self)@.take(i as int) =~= old(self)@);
        }
        self.files = kept;
    }

    /// First entry named `file_name`, if any.
    pub fn get_file(&self, file_name: &[u8]) -> (r: Option<&File>)
        ensures
            match r {
                Some(f) => lookup(self@, file_name@) == Some(f@),
                None => lookup(self@, file_name@) is None,
            },
    {
        let mut i: usize = 0;
        while i < self.files.len()
            invariant
                0 <= i <= self.files@.len(),
                forall|j: int| 0 <= j < i ==> self@[j].name != file_name@,
            decreases self.files@.len() - i,
        {
            if bytes_equal(self.files[i].get_filename().as_slice(), file_name) {
                proof {
                    lemma_lookup_first(self@, file_name@, i as int);
                }
                return Some(&self.files[i]);
            }
            i = i + 1;
        }
        proof {
            lemma_lookup_none(self@, file_name@);
        }
        None
    }

    /// The persisted form of the store: one `name$path` line per entry.
    pub fn mapping_bytes(&self) -> (r: Vec<u8>)
        ensures
            r@ == render(self@),
    {
        let mut out: Vec<u8> = Vec::new();
        let mut i: usize = 0;
        while i < self.files.len()
            invariant
                0 <= i <= self.files@.len(),
                out@ == render(self@.take(i as int)),
            decreases self.files@.len() - i,
        {
            crate::text::append_bytes(&mut out, self.files[i].get_filename().as_slice());
            out.push(SEP_BYTE);
            crate::text::append_bytes(&mut out, self.files[i].get_path().as_slice());
            out.push(NL_BYTE);
            proof {
                assert(self@.take(i + 1).drop_last() =~= self@.take(i as int));
                assert(self@.take(i + 1).last() == self@[i as int]);
                lemma_render_push(self@.take(i + 1));
                assert(out@ =~= render(self@.take(i as int)) + render_entry(self@[i as int]));
            }
            i = i + 1;
        }
        proof {
            assert(self@.take(i as int) =~= self@);
        }
        out
    }
}

/// Byte-for-byte equality of two byte strings.
pub fn bytes_equal(a: &[u8], b: &[u8]) -> (r: bool)
    ensures
        r == (a@ == b@),
{
    if a.len() != b.len() {
        assert(a@ != b@);
        return false;
    }
    let mut i: usize = 0;
    while i < a.len()
        invariant
            0 <= i <= a@.len(),
            a@.len() == b@.len(),
            forall|j: int| 0 <= j < i ==> a@[j] == b@[j],
        decreases a@.len() - i,
    {
        if a[i] != b[i] {
            return false;
        }
        i = i + 1;
    }
    proof {
        assert(a@ =~= b@);
    }
    true
}

/// One rendered mapping line: name, separator, path, newline.
pub open spec fn render_entry(f: FileView) -> Seq<u8> {
    f.name + seq![SEP_BYTE] + f.path + seq![NL_BYTE]
}

/// The rendered mapping text for a whole store.
pub open spec fn render(s: Seq<FileView>) -> Seq<u8>
    decreases s.len(),
{
    if s.len() == 0 {
        Seq::empty()
    } else {
        render(s.drop_last()) + render_entry(s.last())
    }
}

proof fn lemma_render_push(s: Seq<FileView>)
    requires
        s.len() > 0,
    ensures
        render(s) == render(s.drop_last()) + render_entry(s.last()),
{
}

/// The entry a trimmed, non-empty mapping line denotes: the name is the
/// part before the first separator, the path the part between the first
/// and second separators (empty parts take the default path).
pub open spec fn entry_of_line(t: Seq<u8>) -> FileView {
    let d = find_byte(t, SEP_BYTE, 0);
    let name = t.subrange(0, d);
    let path = if d >= t.len() {
        Seq::<u8>::empty()
    } else {
        t.subrange(d + 1, find_byte(t, SEP_BYTE, d + 1))
    };
    FileView {
        name: name,
        path: if path.len() == 0 {
            default_path(name)
        } else {
            path
        },
    }
}

/// Entries contributed by one raw line: none when it trims to nothing.
pub open spec fn line_entries(line: Seq<u8>) -> Seq<FileView> {
    if trim(line).len() == 0 {
        Seq::empty()
    } else {
        seq![entry_of_line(trim(line))]
    }
}

/// Entries of the mapping text from position `i` on, one line at a
/// time, lines delimited by `\n`.
pub open spec fn parse_from(text: Seq<u8>, i: int) -> Seq<FileView>
    decreases text.len() - i,
    via parse_from_decreases
{
    if i < 0 || i >= text.len() {
        Seq::empty()
    } else {
        let j = find_byte(text, NL_BYTE, i);
        line_entries(text.subrange(i, j)) + if j >= text.len() {
            Seq::empty()
        } else {
            parse_from(text, j + 1)
        }
    }
}

#[via_fn]
proof fn parse_from_decreases(text: Seq<u8>, i: int) {
    if 0 <= i < text.len() {
        crate::text::lemma_find_byte_bounds(text, NL_BYTE, i);
    }
}

/// All entries of a mapping text.
pub open spec fn parse_entries(text: Seq<u8>) -> Seq<FileView> {
    parse_from(text, 0)
}

/// Parse one trimmed, non-empty line into an entry.
fn parse_line(t: &Vec<u8>) -> (r: File)
    requires
        t@.len() > 0,
    ensures
        r@ == entry_of_line(t@),
{
    let d = find_byte_at(t.as_slice(), SEP_BYTE, 0);
    proof {
        crate::text::lemma_find_byte_bounds(t@, SEP_BYTE, 0);
    }
    let name = copy_range(t.as_slice(), 0, d);
    let path: Vec<u8> = if d >= t.len() {
        Vec::new()
    } else {
        let e = find_byte_at(t.as_slice(), SEP_BYTE, d + 1);
        proof {
            crate::text::lemma_find_byte_bounds(t@, SEP_BYTE, d + 1);
        }
        copy_range(t.as_slice(), d + 1, e)
    };
    File::new(name, path)
}

/// The fixed `host:port` address the server answers on.
pub open spec fn base_address() -> Seq<u8> {
    seq![0x31u8, 0x32, 0x37, 0x2e, 0x30, 0x2e, 0x30, 0x2e, 0x31, 0x3a, 0x38, 0x38, 0x38, 0x38]
}

/// Exec form of [`base_address`].
pub fn base_address_bytes() -> (r: Vec<u8>)
    ensures
        r@ == base_address(),
{
    let mut v: Vec<u8> = Vec::new();
    v.push(0x31);
    v.push(0x32);
    v.push(0x37);
    v.push(0x2e);
    v.push(0x30);
    v.push(0x2e);
    v.push(0x30);
    v.push(0x2e);
    v.push(0x31);
    v.push(0x3a);
    v.push(0x38);
    v.push(0x38);
    v.push(0x38);
    v.push(0x38);
    assert(v@ =~= base_address());
    v
}

/// The name of the persisted mapping file, `tmp.vfs`.
pub open spec fn mapping_name() -> Seq<u8> {
    seq![0x74u8, 0x6d, 0x70, 0x2e, 0x76, 0x66, 0x73]
}

/// Exec form of [`mapping_name`].
pub fn mapping_name_bytes() -> (r: Vec<u8>)
    ensures
        r@ == mapping_name(),
{
    let mut v: Vec<u8> = Vec::new();
    v.push(0x74);
    v.push(0x6d);
    v.push(0x70);
    v.push(0x2e);
    v.push(0x76);
    v.push(0x66);
    v.push(0x73);
    assert(v@ =~= mapping_name());
    v
}

/// The entry an unresolved name falls back to: the mapping file itself.
pub open spec fn fallback_entry() -> FileView {
    FileView { name: mapping_name(), path: default_path(mapping_name()) }
}

/// A freshly loaded view of the virtual file system.
pub struct Vfs {
    files: Files,
}

impl View for Vfs {
    type V = Seq<FileView>;

    closed spec fn view(&self) -> Seq<FileView> {
        self.files@
    }
}

impl Vfs {
    /// Load the store from the mapping file's text.
    pub fn new(text: &[u8]) -> (r: Vfs)
        ensures
            r@ == parse_entries(text@),
    {
        Vfs { files: Vfs::read_tmpvfs(text) }
    }

    /// The download address of an entry: the server address, a slash,
    /// and the logical name.
    pub fn make_address(file: &File) -> (r: Vec<u8>)
        ensures
            r@ == base_address() + seq![SLASH_BYTE] + file@.name,
    {
        let mut v = base_address_bytes();
        v.push(SLASH_BYTE);
        crate::text::append_bytes(&mut v, file.get_filename().as_slice());
        assert(v@ =~= base_address() + seq![SLASH_BYTE] + file@.name);
        v
    }

    /// The download address of the entry a name resolves to.
    pub fn allocate(&self, file_name: &[u8]) -> (r: Vec<u8>)
        requires
            lookup(self@, file_name@) is Some,
        ensures
            r@ == base_address() + seq![SLASH_BYTE] + lookup(self@, file_name@)->0.name,
    {
        let file = self.files.get_file(file_name);
        match file {
            Some(f) => Vfs::make_address(f),
            None => vstd::pervasive::unreached(),
        }
    }

    /// The path of the first entry named `name`, if any.
    pub fn path_by_name(&self, name: &[u8]) -> (r: Option<Vec<u8>>)
        ensures
            match r {
                Some(p) => lookup(self@, name@) is Some && p@ == lookup(self@, name@)->0.path,
                None => lookup(self@, name@) is None,
            },
    {
        match self.files.get_file(name) {
            Some(f) => Some(f.get_path().clone()),
            None => None,
        }
    }

    /// A copy of the first entry named `name`, if any.
    pub fn get_file_by_name(&self, name: &[u8]) -> (r: Option<File>)
        ensures
            match r {
                Some(f) => lookup(self@, name@) == Some(f@),
                None => lookup(self@, name@) is None,
            },
    {
        match self.files.get_file(name) {
            Some(f) => Some(f.clone()),
            None => None,
        }
    }

    /// The entry to serve for a requested name: the first entry bearing
    /// it, or, when none does, the fallback entry for the mapping file
    /// itself.
    pub fn resolve(&self, name: &[u8]) -> (r: File)
        ensures
            r@ == match lookup(self@, name@) {
                Some(f) => f,
                None => fallback_entry(),
            },
    {
        match self.get_file_by_name(name) {
            Some(f) => f,
            None => {
                let f = File::new(mapping_name_bytes(), Vec::new());
                assert(f@ =~= fallback_entry());
                f
            },
        }
    }

    /// The store described by a whole mapping text.
    ///
    /// Every line is trimmed of surrounding whitespace; blank lines are
    /// skipped; each remaining line contributes one entry.
    pub fn read_tmpvfs(text: &[u8]) -> (r: Files)
        ensures
            r@ == parse_entries(text@),
    {
    let mut out = Files::new();
    let mut i: usize = 0;
    while i < text.len()
        invariant
            0 <= i <= text@.len(),
            parse_entries(text@) == out@ + parse_from(text@, i as int),
        decreases text@.len() - i,
    {
        let j = find_byte_at(text, NL_BYTE, i);
        proof {
            crate::text::lemma_find_byte_bounds(text@, NL_BYTE, i as int);
        }
        let line = copy_range(text, i, j);
        let t = trim_spaces(line.as_slice());
        let ghost entries_here = line_entries(text@.subrange(i as int, j as int));
        if t.len() > 0 {
            let f = parse_line(&t);
            let ghost fv = f@;
            out.add_file(f);
            proof {
                assert(entries_here =~= seq![fv]);
            }
        } else {
            proof {
                assert(entries_here =~= Seq::<FileView>::empty());
            }
        }
        proof {
            if j < text@.len() {
                assert(parse_from(text@, i as int) == entries_here + parse_from(
                    text@,
                    j + 1,
                ));
            } else {
                assert(parse_from(text@, i as int) == entries_here + Seq::<
                    FileView,
                >::empty());
                assert(parse_from(text@, j + 1) =~= Seq::<FileView>::empty());
            }
            assert(parse_entries(text@) =~= out@ + parse_from(text@, j + 1));
        }
        i = if j < text.len() {
            j + 1
        } else {
            j
        };
        proof {
            if i >= text@.len() {
                assert(parse_from(text@, i as int) =~= Seq::<FileView>::empty());
            }
        }
    }
    proof {
        assert(parse_from(text@, i as int) =~= Seq::<FileView>::empty());
        assert(out@ =~= out@ + Seq::<FileView>::empty());
    }
    out
    }
}

} // verus!
