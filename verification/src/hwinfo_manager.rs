//! Where the HWiNFO executable and its configuration file live, and the
//! `SensorsSM=1` setting in that configuration file that turns on HWiNFO's
//! shared memory.
//!
//! The free edition of HWiNFO drops `SensorsSM=1` from `HWiNFO64.INI` after
//! twelve hours of running; the monitor puts it back before restarting HWiNFO.
use vstd::prelude::*;
use crate::text::{chars_of, contains_chars, contains_seq, find, find_chars, find_chars_from, find_from,
    lemma_find_from, push_chars, string_of};

verus! {

// ---------------------------------------------------------------------------
// std::path calls without a vstd specification
// ---------------------------------------------------------------------------

/// What `Path::parent` gives for a path written as `p`.
pub uninterp spec fn path_parent_text(p: Seq<char>) -> Option<Seq<char>>;

/// What `Path::join` gives for a base path and a file name.
pub uninterp spec fn path_join_text(base: Seq<char>, name: Seq<char>) -> Seq<char>;

/// Calls `Path::parent` on `p`. Trusted: the result is `path_parent_text`
/// of the text of `p`, read back as text (lossless, since `p` is UTF-8).
#[verifier::external_body]
fn path_parent(p: &str) -> (r: Option<String>)
    ensures
        match r {
            Some(d) => path_parent_text(p@) == Some(d@),
            None => path_parent_text(p@) is None,
        },
{
    std::path::Path::new(p).parent().map(|d| d.to_string_lossy().into_owned())
}

/// Calls `Path::join`. Trusted: the result is `path_join_text` of the two
/// texts, read back as text (lossless, since both are UTF-8).
#[verifier::external_body]
fn path_join(base: &str, name: &str) -> (r: String)
    ensures
        r@ == path_join_text(base@, name@),
{
    std::path::Path::new(base).join(name).to_string_lossy().into_owned()
}

// ---------------------------------------------------------------------------
// The manager's paths
// ---------------------------------------------------------------------------

/// Why the HWiNFO paths could not be worked out.
#[derive(Debug, Clone, Copy, PartialEq, Eq, Structural)]
pub enum HwinfoPathError {
    /// The path of the running executable could not be obtained.
    CurrentExeUnavailable,
    /// The running executable's path has no parent directory.
    NoExeDirectory,
    /// The HWiNFO executable's path has no parent directory.
    NoHwinfoDirectory,
}

/// The paths of the HWiNFO executable and of its `HWiNFO64.INI`, which
/// lies beside it.
pub struct HWiNFOManager {
    path: String,
    ini_path: String,
}

/// The executable's path when none is given: `HWiNFO64/HWiNFO64.EXE` in the
/// directory of the running executable.
pub open spec fn default_hwinfo_path(exe_dir: Seq<char>) -> Seq<char> {
    path_join_text(path_join_text(exe_dir, "HWiNFO64"@), "HWiNFO64.EXE"@)
}

impl HWiNFOManager {
    pub closed spec fn path_text(&self) -> Seq<char> {
        self.path@
    }

    pub closed spec fn ini_path_text(&self) -> Seq<char> {
        self.ini_path@
    }

    /// Works out the paths. `hwinfo_path` is the executable's path, if the
    /// caller names one; otherwise `current_exe` (the running executable's
    /// path, `None` when it could not be obtained) decides it.
    pub fn new(hwinfo_path: Option<&str>, current_exe: Option<&str>) -> (r: Result<
        Self,
        HwinfoPathError,
    >)
        ensures
            ({
                let chosen: Result<Seq<char>, HwinfoPathError> = match hwinfo_path {
                    Some(p) => Ok(p@),
                    None => match current_exe {
                        None => Err(HwinfoPathError::CurrentExeUnavailable),
                        Some(e) => match path_parent_text(e@) {
                            None => Err(HwinfoPathError::NoExeDirectory),
                            Some(d) => Ok(default_hwinfo_path(d)),
                        },
                    },
                };
                match chosen {
                    Err(e) => r == Err::<Self, HwinfoPathError>(e),
                    Ok(p) => match path_parent_text(p) {
                        None => r == Err::<Self, HwinfoPathError>(
                            HwinfoPathError::NoHwinfoDirectory,
                        ),
                        Some(dir) => r matches Ok(m) && m.path_text() == p && m.ini_path_text()
                            == path_join_text(dir, "HWiNFO64.INI"@),
                    },
                }
            }),
    {
        let path: String = match hwinfo_path {
            Some(p) => string_of(&chars_of(p)),
            None => match current_exe {
                None => return Err(HwinfoPathError::CurrentExeUnavailable),
                Some(e) => match path_parent(e) {
                    None => return Err(HwinfoPathError::NoExeDirectory),
                    Some(dir) => {
                        let sub = path_join(dir.as_str(), "HWiNFO64");
                        path_join(sub.as_str(), "HWiNFO64.EXE")
                    },
                },
            },
        };
        let ini_path = match path_parent(path.as_str()) {
            None => return Err(HwinfoPathError::NoHwinfoDirectory),
            Some(dir) => path_join(dir.as_str(), "HWiNFO64.INI"),
        };
        Ok(HWiNFOManager { path, ini_path })
    }

    /// The HWiNFO executable's path.
    pub fn path(&self) -> (r: &str)
        ensures
            r@ == self.path_text(),
    {
        self.path.as_str()
    }

    /// The path of `HWiNFO64.INI`.
    pub fn ini_path(&self) -> (r: &str)
        ensures
            r@ == self.ini_path_text(),
    {
        self.ini_path.as_str()
    }
}

/// `HWiNFO64\\HWiNFO64.EXE` under a directory, the empty text standing for
/// a missing one.
pub open spec fn hwinfo_exe_under_text(dir: Option<Seq<char>>) -> Seq<char> {
    let d = match dir {
        Some(d) => d,
        None => Seq::empty(),
    };
    d + "\\HWiNFO64\\HWiNFO64.EXE"@
}

/// The executable's path derived from the path of the loaded Python module:
/// `HWiNFO64\\HWiNFO64.EXE` under the module's directory (the empty text if
/// it has none).
pub open spec fn module_hwinfo_text(python_module_file: Seq<char>) -> Seq<char> {
    hwinfo_exe_under_text(path_parent_text(python_module_file))
}

/// `HWiNFO64\\HWiNFO64.EXE` under the directory `dir`, or under the empty
/// text when there is none.
pub fn hwinfo_exe_under(dir: Option<String>) -> (r: String)
    ensures
        r@ == hwinfo_exe_under_text(match dir {
            Some(d) => Some(d@),
            None => None,
        }),
{
    let mut r = match dir {
        Some(d) => d,
        None => String::new(),
    };
    let tail = "\\HWiNFO64\\HWiNFO64.EXE";
    push_chars(&mut r, &chars_of(tail));
    r
}

/// The executable's path derived from the path of the loaded Python module.
pub fn module_hwinfo_path(python_module_file: &str) -> (r: String)
    ensures
        r@ == module_hwinfo_text(python_module_file@),
{
    hwinfo_exe_under(path_parent(python_module_file))
}

/// The image name under which HWiNFO runs.
pub open spec fn hwinfo_image_name() -> Seq<char> {
    seq!['H', 'W', 'i', 'N', 'F', 'O', '6', '4', '.', 'E', 'X', 'E']
}

/// Whether the output of `tasklist /fi "imagename eq HWiNFO64.EXE"` lists a
/// running HWiNFO: it mentions the image name.
pub fn hwinfo_listed(tasklist_output: &str) -> (b: bool)
    ensures
        b == contains_seq(tasklist_output@, hwinfo_image_name()),
{
    let name = vec!['H', 'W', 'i', 'N', 'F', 'O', '6', '4', '.', 'E', 'X', 'E'];
    assert(name@ =~= hwinfo_image_name());
    contains_chars(&chars_of(tasklist_output), &name)
}

/// The PowerShell command that starts the executable at `path` with a hidden
/// window.
pub open spec fn start_command_text(path: Seq<char>) -> Seq<char> {
    "Start-Process -FilePath '"@ + path + "' -WindowStyle Hidden"@
}

/// The start command hands the path to `Start-Process -FilePath` as one
/// single-quoted argument, so that a path with spaces stays whole, and asks
/// for a hidden window: `Start-Process -FilePath `, a quote, the path itself,
/// a quote, then ` -WindowStyle Hidden`; no quote stands before the path's.
pub proof fn law_start_command_quotes_path(path: Seq<char>)
    ensures
        start_command_text(path).len() == path.len() + 46,
        start_command_text(path).take(24) == seq!['S', 't', 'a', 'r', 't', '-', 'P', 'r', 'o', 'c', 'e', 's', 's', ' ', '-', 'F', 'i', 'l', 'e', 'P', 'a', 't', 'h', ' '],
        start_command_text(path)[24] == '\'',
        start_command_text(path).subrange(25, 25 + path.len() as int) == path,
        start_command_text(path)[25 + path.len() as int] == '\'',
        start_command_text(path).skip(26 + path.len() as int) == seq![' ', '-', 'W', 'i', 'n', 'd', 'o', 'w', 'S', 't', 'y', 'l', 'e', ' ', 'H', 'i', 'd', 'd', 'e', 'n'],
        forall|k: int| 0 <= k < 24 ==> start_command_text(path)[k] != '\'',
{
    reveal_strlit("Start-Process -FilePath '");
    reveal_strlit("' -WindowStyle Hidden");
    let c = start_command_text(path);
    assert(c.take(24) =~= seq!['S', 't', 'a', 'r', 't', '-', 'P', 'r', 'o', 'c', 'e', 's', 's', ' ', '-', 'F', 'i', 'l', 'e', 'P', 'a', 't', 'h', ' ']);
    assert(c.subrange(25, 25 + path.len() as int) =~= path);
    assert(c.skip(26 + path.len() as int) =~= seq![' ', '-', 'W', 'i', 'n', 'd', 'o', 'w', 'S', 't', 'y', 'l', 'e', ' ', 'H', 'i', 'd', 'd', 'e', 'n']);
}

/// The PowerShell command that starts the executable at `path` with a hidden
/// window.
pub fn start_command(path: &str) -> (r: String)
    ensures
        r@ == start_command_text(path@),
{
    let mut r = string_of(&chars_of("Start-Process -FilePath '"));
    push_chars(&mut r, &chars_of(path));
    push_chars(&mut r, &chars_of("' -WindowStyle Hidden"));
    r
}

// ---------------------------------------------------------------------------
// The SensorsSM=1 setting
// ---------------------------------------------------------------------------

pub open spec fn shared_memory_setting() -> Seq<char> {
    seq!['S', 'e', 'n', 's', 'o', 'r', 's', 'S', 'M', '=', '1']
}

pub open spec fn settings_header() -> Seq<char> {
    seq!['[', 'S', 'e', 't', 't', 'i', 'n', 'g', 's', ']']
}

pub open spec fn section_start() -> Seq<char> {
    seq!['\n', '[']
}

/// The configuration text turns on shared memory when it holds `SensorsSM=1`
/// anywhere.
pub open spec fn enables_shared_memory(content: Seq<char>) -> bool {
    contains_seq(content, shared_memory_setting())
}

/// Where the setting goes in a text that has a `[Settings]` section: before
/// the next section header (a line starting with `[`) after `[Settings]`, or
/// at the end.
pub open spec fn settings_insert_point(content: Seq<char>, header: int) -> int {
    match find(content.skip(header), section_start()) {
        Some(j) => header + j,
        None => content.len() as int,
    }
}

/// The configuration text with `SensorsSM=1` added: as a new line at the
/// end of the `[Settings]` section, or, without such a section, in a new
/// `[Settings]` section at the end (after a line break if the text does not
/// end with one).
pub open spec fn with_shared_memory(content: Seq<char>) -> Seq<char> {
    match find(content, settings_header()) {
        Some(h) => {
            let k = settings_insert_point(content, h);
            content.take(k) + seq!['\n'] + shared_memory_setting() + content.skip(k)
        },
        None => {
            let sep = if content.len() > 0 && content.last() != '\n' {
                seq!['\n']
            } else {
                Seq::empty()
            };
            content + sep + settings_header() + seq!['\n'] + shared_memory_setting() + seq!['\n']
        },
    }
}

/// The text a missing configuration file is taken to hold.
pub open spec fn empty_settings() -> Seq<char> {
    settings_header() + seq!['\n']
}

/// What must be written to the configuration file so that it turns on
/// shared memory: nothing if it already does, otherwise the text with the
/// setting added. `None` for `existing` means that the file does not exist.
pub open spec fn shared_memory_fix(existing: Option<Seq<char>>) -> Option<Seq<char>> {
    match existing {
        Some(c) => if enables_shared_memory(c) {
            None
        } else {
            Some(with_shared_memory(c))
        },
        None => Some(with_shared_memory(empty_settings())),
    }
}

fn setting_chars() -> (v: Vec<char>)
    ensures
        v@ == shared_memory_setting(),
{
    let v = vec!['S', 'e', 'n', 's', 'o', 'r', 's', 'S', 'M', '=', '1'];
    assert(v@ =~= shared_memory_setting());
    v
}

fn header_chars() -> (v: Vec<char>)
    ensures
        v@ == settings_header(),
{
    let v = vec!['[', 'S', 'e', 't', 't', 'i', 'n', 'g', 's', ']'];
    assert(v@ =~= settings_header());
    v
}

/// Whether a configuration text turns on shared memory.
pub fn ini_enables_shared_memory(content: &str) -> (b: bool)
    ensures
        b == enables_shared_memory(content@),
{
    contains_chars(&chars_of(content), &setting_chars())
}

/// The configuration text with `SensorsSM=1` added, as `with_shared_memory`
/// describes.
pub fn add_shared_memory_setting(content: &str) -> (out: String)
    ensures
        out@ == with_shared_memory(content@),
{
    let c = chars_of(content);
    let header = header_chars();
    let setting = setting_chars();
    let mut out = String::new();
    match find_chars(&c, &header) {
        Some(h) => {
            let next = vec!['\n', '['];
            assert(next@ =~= section_start());
            let k: usize = match find_chars_from(&c, &next, h) {
                Some(k) => k,
                None => c.len(),
            };
            proof {
                lemma_find_from(c@, header@, 0);
                lemma_find_from(c@, next@, h as int);
                lemma_find_from_shift(c@, next@, h as int);
            }
            let mut i: usize = 0;
            while i < k
                invariant
                    i <= k <= c.len(),
                    out@ == c@.take(i as int),
                decreases k - i,
            {
                crate::text::push_char(&mut out, c[i]);
                i += 1;
                assert(c@.take(i as int) =~= c@.take(i - 1).push(c@[i - 1]));
            }
            crate::text::push_char(&mut out, '\n');
            push_chars(&mut out, &setting);
            while i < c.len()
                invariant
                    k <= i <= c.len(),
                    out@ == c@.take(k as int) + seq!['\n'] + shared_memory_setting() + c@.subrange(
                        k as int,
                        i as int,
                    ),
                decreases c.len() - i,
            {
                crate::text::push_char(&mut out, c[i]);
                i += 1;
                assert(c@.subrange(k as int, i as int) =~= c@.subrange(k as int, i - 1).push(
                    c@[i - 1],
                ));
            }
            assert(c@.subrange(k as int, c.len() as int) =~= c@.skip(k as int));
        },
        None => {
            push_chars(&mut out, &c);
            if c.len() > 0 && c[c.len() - 1] != '\n' {
                crate::text::push_char(&mut out, '\n');
            }
            push_chars(&mut out, &header);
            crate::text::push_char(&mut out, '\n');
            push_chars(&mut out, &setting);
            crate::text::push_char(&mut out, '\n');
        },
    }
    assert(out@ =~= with_shared_memory(content@));
    out
}

/// `find_from` at `h` and `find` in the text from `h` on agree, shifted by
/// `h`.
pub proof fn lemma_find_from_shift(s: Seq<char>, pat: Seq<char>, h: int)
    requires
        0 <= h <= s.len(),
    ensures
        match find(s.skip(h), pat) {
            Some(j) => find_from(s, pat, h) == Some(h + j),
            None => find_from(s, pat, h) is None,
        },
{
    let t = s.skip(h);
    lemma_find_from(s, pat, h);
    lemma_find_from(t, pat, 0);
    assert forall|j: int| 0 <= j implies crate::text::occurs_at(t, pat, j)
        == crate::text::occurs_at(s, pat, h + j) by {
        if j + pat.len() <= t.len() {
            assert(t.subrange(j, j + pat.len()) =~= s.subrange(h + j, h + j + pat.len()));
        }
    }
    match find(t, pat) {
        Some(j) => {
            assert(crate::text::occurs_at(s, pat, h + j));
            match find_from(s, pat, h) {
                Some(i) => {
                    assert(crate::text::occurs_at(t, pat, i - h));
                },
                None => {},
            }
        },
        None => {
            match find_from(s, pat, h) {
                Some(i) => {
                    assert(crate::text::occurs_at(t, pat, i - h));
                },
                None => {},
            }
        },
    }
}

/// What must be written to the configuration file so that it turns on
/// shared memory, as `shared_memory_fix` describes; `existing` is the file's
/// text, `None` when the file does not exist.
pub fn plan_shared_memory_fix(existing: Option<&str>) -> (r: Option<String>)
    ensures
        match r {
            Some(s) => shared_memory_fix(match existing {
                Some(c) => Some(c@),
                None => None,
            }) == Some(s@),
            None => shared_memory_fix(match existing {
                Some(c) => Some(c@),
                None => None,
            }) is None,
        },
{
    match existing {
        Some(c) => {
            if ini_enables_shared_memory(c) {
                None
            } else {
                Some(add_shared_memory_setting(c))
            }
        },
        None => {
            let mut base = string_of(&header_chars());
            crate::text::push_char(&mut base, '\n');
            assert(base@ =~= empty_settings());
            Some(add_shared_memory_setting(base.as_str()))
        },
    }
}

// ---------------------------------------------------------------------------
// Laws
// ---------------------------------------------------------------------------

/// Adding the setting always yields a text that turns on shared memory.
pub proof fn law_fix_enables_shared_memory(content: Seq<char>)
    ensures
        enables_shared_memory(with_shared_memory(content)),
{
    let out = with_shared_memory(content);
    let s = shared_memory_setting();
    match find(content, settings_header()) {
        Some(h) => {
            lemma_find_from(content, settings_header(), 0);
            let k = settings_insert_point(content, h);
            lemma_find_from(content.skip(h), section_start(), 0);
            let pre = content.take(k) + seq!['\n'];
            assert(out.subrange(pre.len() as int, (pre.len() + s.len()) as int) =~= s);
            assert(crate::text::occurs_at(out, s, pre.len() as int));
        },
        None => {
            let sep = if content.len() > 0 && content.last() != '\n' {
                seq!['\n']
            } else {
                Seq::<char>::empty()
            };
            let pre = content + sep + settings_header() + seq!['\n'];
            assert(out.subrange(pre.len() as int, (pre.len() + s.len()) as int) =~= s);
            assert(crate::text::occurs_at(out, s, pre.len() as int));
        },
    }
}

/// The plan writes exactly when the file does not already turn on shared
/// memory, and what it writes always does.
pub proof fn law_fix_needed_and_sufficient(existing: Option<Seq<char>>)
    ensures
        shared_memory_fix(existing) is None <==> (existing matches Some(c)
            && enables_shared_memory(c)),
        shared_memory_fix(existing) matches Some(w) ==> enables_shared_memory(w),
{
    match existing {
        Some(c) => law_fix_enables_shared_memory(c),
        None => law_fix_enables_shared_memory(empty_settings()),
    }
}

/// With a `[Settings]` section, `SensorsSM=1` goes in as a line of its own
/// inside that section: after the first `[Settings]` header, with no section
/// starting (`\n[`) between the header and the inserted line, and followed
/// by the next section start or by the end of the text.
pub proof fn law_setting_lands_in_settings_section(content: Seq<char>, h: int) -> (k: int)
    requires
        crate::text::occurs_at(content, settings_header(), h),
        forall|j: int| 0 <= j < h ==> !crate::text::occurs_at(content, settings_header(), j),
    ensures
        h + settings_header().len() <= k <= content.len(),
        with_shared_memory(content) == content.take(k) + seq!['\n'] + shared_memory_setting()
            + content.skip(k),
        forall|m: int| h <= m < k ==> !#[trigger] crate::text::occurs_at(content, section_start(), m),
        k == content.len() || crate::text::occurs_at(content, section_start(), k),
{
    lemma_find_from(content, settings_header(), 0);
    assert(find(content, settings_header()) == Some(h));
    lemma_find_from_shift(content, section_start(), h);
    lemma_find_from(content, section_start(), h);
    let k = settings_insert_point(content, h);
    assert forall|m: int| h <= m < h + settings_header().len() implies !#[trigger] crate::text::occurs_at(
        content,
        section_start(),
        m,
    ) by {
        if crate::text::occurs_at(content, section_start(), m) {
            assert(content.subrange(m, m + 2)[0] == '\n');
            assert(content[m] == '\n');
            assert(content.subrange(h, h + settings_header().len())[m - h] == settings_header()[m
                - h]);
            assert(content[m] == settings_header()[m - h]);
        }
    }
    assert(with_shared_memory(content) == content.take(k) + seq!['\n'] + shared_memory_setting()
        + content.skip(k));
    match find(content.skip(h), section_start()) {
        Some(j) => {
            assert(find_from(content, section_start(), h) == Some(h + j));
            assert(k == h + j);
            assert(crate::text::occurs_at(content, section_start(), k));
            assert(k >= h + settings_header().len());
            assert(k + 2 <= content.len());
        },
        None => {
            assert(k == content.len());
        },
    }
    assert(h + settings_header().len() <= k <= content.len());
    assert(forall|m: int|
        h <= m < k ==> !#[trigger] crate::text::occurs_at(content, section_start(), m));
    k
}

/// Adding the setting keeps every character of the original text, in order,
/// around the inserted part.
pub proof fn law_fix_keeps_text(content: Seq<char>)
    ensures
        exists|k: int, ins: Seq<char>|
            0 <= k <= content.len() && #[trigger] with_shared_memory(content) == content.take(k)
                + ins + content.skip(k),
{
    match find(content, settings_header()) {
        Some(h) => {
            lemma_find_from(content, settings_header(), 0);
            lemma_find_from(content.skip(h), section_start(), 0);
            let k = settings_insert_point(content, h);
            let ins = seq!['\n'] + shared_memory_setting();
            assert(with_shared_memory(content) =~= content.take(k) + ins + content.skip(k));
        },
        None => {
            let sep = if content.len() > 0 && content.last() != '\n' {
                seq!['\n']
            } else {
                Seq::<char>::empty()
            };
            let k = content.len() as int;
            let ins = sep + settings_header() + seq!['\n'] + shared_memory_setting() + seq!['\n'];
            assert(content.take(k) =~= content);
            assert(content.skip(k) =~= Seq::<char>::empty());
            assert(with_shared_memory(content) =~= content.take(k) + ins + content.skip(k));
        },
    }
}

} // verus!
