//! The record store: the handle on the resource-mod directory, the
//! planning of archive installs, and the replay of recorded paths that
//! undoes them.
//!
//! The handle is a single exclusively-owned value; whoever holds it may
//! read and write the directory and its manifest. Planning is pure: the
//! caller reports which destinations exist, receives the exact actions to
//! perform and the record to persist, and carries them out itself.

use vstd::prelude::*;

use crate::records::{Record, Records};
use crate::sources::idx_of;
use crate::text::{spec_parse_u64, parse_u64, str_to_chars, chars_to_string};

verus! {

/// What can go wrong inside the record store's own logic. I/O and archive
/// errors stay with the caller that performs the file operations.
#[derive(Debug, Clone)]
pub enum Error {
    /// A file entry's destination already exists: the whole install is
    /// refused before anything would be overwritten.
    FileConflict { file: String },
    /// No numerically-named build directory was found under `bin`.
    ResModsDirNotFound { game_dir_path: String },
}

/// The exclusively-held handle rooted at one resource-mod directory.
#[derive(Debug, Clone)]
pub struct ModManager {
    pub res_mods_path: String,
}

impl View for ModManager {
    type V = Seq<char>;

    open spec fn view(&self) -> Seq<char> {
        self.res_mods_path@
    }
}

/// The winner of the build-directory scan over `s`, or `-1` when no name
/// is numeric: the greatest build number wins, and of equal numbers the
/// later entry.
pub open spec fn best_build_idx(s: Seq<String>) -> int
    decreases s.len(),
{
    if s.len() == 0 {
        -1
    } else if spec_parse_u64(s.last()@) is None {
        best_build_idx(s.drop_last())
    } else if best_build_idx(s.drop_last()) >= 0
        && spec_parse_u64(s[best_build_idx(s.drop_last())]@)->0
            > spec_parse_u64(s.last()@)->0 {
        best_build_idx(s.drop_last())
    } else {
        s.len() - 1
    }
}

/// What the winner means: it is numeric, no entry beats it, and later
/// entries never tie it.
pub proof fn lemma_best_build_idx(s: Seq<String>)
    ensures
        best_build_idx(s) == -1 ==> forall|j: int| 0 <= j < s.len()
            ==> spec_parse_u64((#[trigger] s[j])@) is None,
        best_build_idx(s) >= 0 ==> best_build_idx(s) < s.len()
            && spec_parse_u64(s[best_build_idx(s)]@) is Some,
    decreases s.len(),
{
    if s.len() > 0 {
        lemma_best_build_idx(s.drop_last());
        if best_build_idx(s) == -1 {
            assert(forall|j: int| 0 <= j < s.len() - 1
                ==> (#[trigger] s[j])@ == s.drop_last()[j]@);
        }
    }
}

impl ModManager {
    /// The path of the resource-mod directory this handle owns.
    pub fn path(&self) -> (r: &str)
        ensures
            r@ == self@,
    {
        self.res_mods_path.as_str()
    }

    /// A handle rooted at a path picked elsewhere.
    pub fn from_res_mods_path(p: String) -> (r: ModManager)
        ensures
            r@ == p@,
    {
        ModManager { res_mods_path: p }
    }

    /// Picks the newest build under the game directory's `bin` folder and
    /// roots the handle at its `res_mods` directory. `bin_entries` holds
    /// the names found in `bin`, in directory order: the numerically
    /// greatest name wins, the later of equal names; when none is numeric
    /// the game installation cannot be used.
    pub fn try_from_game_dir(game_dir_path: &str, bin_entries: &Vec<String>) -> (r: Result<
        ModManager,
        Error,
    >)
        ensures
            r is Ok <==> best_build_idx(bin_entries@) >= 0,
            r matches Ok(m) ==> m@ == game_dir_path@ + "/bin/"@
                + bin_entries@[best_build_idx(bin_entries@)]@ + "/res_mods"@,
            r matches Err(e) ==> e matches Error::ResModsDirNotFound { game_dir_path: g }
                && g@ == game_dir_path@,
    {
        let mut best: Option<(usize, u64)> = None;
        let mut i: usize = 0;
        let n: usize = bin_entries.len();
        while i < n
            invariant
                i <= n,
                n == bin_entries@.len(),
                best is None ==> best_build_idx(bin_entries@.subrange(0, i as int)) == -1,
                best matches Some((bi, bv)) ==> bi < i
                    && best_build_idx(bin_entries@.subrange(0, i as int)) == bi
                    && spec_parse_u64(bin_entries@[bi as int]@) == Some(bv),
            decreases n - i,
        {
            let ghost pre = bin_entries@.subrange(0, i as int);
            let ghost cur = bin_entries@.subrange(0, i + 1 as int);
            proof {
                assert(cur.drop_last() =~= pre);
                assert(cur.last() == bin_entries@[i as int]);
            }
            match parse_u64(bin_entries[i].as_str()) {
                None => {},
                Some(v) => {
                    match best {
                        None => {
                            best = Some((i, v));
                        },
                        Some((bi, bv)) => {
                            if !(bv > v) {
                                best = Some((i, v));
                            }
                        },
                    }
                },
            }
            i = i + 1;
        }
        proof {
            assert(bin_entries@.subrange(0, n as int) =~= bin_entries@);
        }
        match best {
            None => Err(Error::ResModsDirNotFound { game_dir_path: game_dir_path.to_owned() }),
            Some((bi, _)) => {
                let p: String = game_dir_path
                    .to_owned()
                    .concat("/bin/")
                    .concat(bin_entries[bi].as_str())
                    .concat("/res_mods");
                Ok(ModManager { res_mods_path: p })
            },
        }
    }

    /// The manifest file this handle owns.
    pub fn manifest_path(&self) -> (r: String)
        ensures
            r@ == self@ + "/.kmmgr.json"@,
    {
        self.res_mods_path.clone().concat("/.kmmgr.json")
    }

    /// A recorded relative path joined under the resource-mod directory.
    pub fn full_path(&self, rel: &str) -> (r: String)
        ensures
            r@ == self@ + "/"@ + rel@,
    {
        self.res_mods_path.clone().concat("/").concat(rel)
    }
}

/// Characters that never survive path sanitization: separators, the
/// characters Windows forbids in file names, and control characters.
pub open spec fn is_illegal_path_char(c: char) -> bool {
    c == '/' || c == '\\' || c == '?' || c == '<' || c == '>' || c == ':' || c == '*' || c == '|'
        || c == '"' || c as u32 <= 0x1f || (0x80 <= c as u32 && c as u32 <= 0x9f)
}

/// What `sanitize_filename` makes of one path segment.
pub uninterp spec fn sanitized_segment(s: Seq<char>) -> Seq<char>;

/// Relies on `sanitize_filename::sanitize_with_options`, called with fixed
/// options (Windows rules, truncation, empty replacement) so that the
/// result depends on the segment alone: it strips separators, forbidden
/// and control characters, collapses all-dot names to nothing, truncates
/// to 255 bytes, and strips trailing dots and spaces. Truncation comes
/// last, so only a segment short enough to escape it is known to keep no
/// trailing dot or space.
#[verifier::external_body]
fn sanitize_segment(seg: &str) -> (r: String)
    ensures
        r@ == sanitized_segment(seg@),
        r@.len() <= 255,
        seg@.len() == 0 ==> r@.len() == 0,
        forall|i: int| 0 <= i < r@.len() ==> !is_illegal_path_char(#[trigger] r@[i]),
        seg@.len() <= 63 && r@.len() > 0 ==> r@.last() != '.' && r@.last() != ' ',
{
    sanitize_filename::sanitize_with_options(
        seg,
        sanitize_filename::Options { windows: true, truncate: true, replacement: "" },
    )
}

/// Backslashes read as path separators.
pub open spec fn norm_slashes(s: Seq<char>) -> Seq<char> {
    s.map_values(|c: char| if c == '\\' { '/' } else { c })
}

/// The segments of a path, split at separators. Splitting never returns
/// an empty list: a path without separators is one segment.
pub open spec fn split_slash(s: Seq<char>) -> Seq<Seq<char>>
    decreases s.len(),
    via split_slash_dec
{
    if idx_of(s, '/') < 0 {
        seq![s]
    } else {
        seq![s.subrange(0, idx_of(s, '/'))] + split_slash(
            s.subrange(idx_of(s, '/') + 1, s.len() as int),
        )
    }
}

#[via_fn]
proof fn split_slash_dec(s: Seq<char>) {
    crate::sources::lemma_idx_of_range(s, '/');
}

/// Segments joined back with separators.
pub open spec fn join_slash(parts: Seq<Seq<char>>) -> Seq<char>
    decreases parts.len(),
{
    if parts.len() == 0 {
        Seq::empty()
    } else if parts.len() == 1 {
        parts[0]
    } else {
        parts[0] + seq!['/'] + join_slash(parts.drop_first())
    }
}

/// Each segment sanitized on its own.
pub open spec fn sanitize_parts(parts: Seq<Seq<char>>) -> Seq<Seq<char>> {
    parts.map_values(|p: Seq<char>| sanitized_segment(p))
}

/// How an untrusted archive path becomes a relative path that is safe to
/// join under the resource-mod directory: separators normalized, then
/// every segment sanitized independently, so no segment can traverse
/// upward or name a device.
pub open spec fn spec_sanitize_path(s: Seq<char>) -> Seq<char> {
    join_slash(sanitize_parts(split_slash(norm_slashes(s))))
}

/// One unfolding step of sanitizing at the first separator.
proof fn lemma_sanitize_step(s: Seq<char>)
    ensures
        idx_of(s, '/') < 0 ==> join_slash(sanitize_parts(split_slash(s))) == sanitized_segment(s),
        idx_of(s, '/') >= 0 ==> join_slash(sanitize_parts(split_slash(s))) == sanitized_segment(
            s.subrange(0, idx_of(s, '/')),
        ) + seq!['/'] + join_slash(
            sanitize_parts(split_slash(s.subrange(idx_of(s, '/') + 1, s.len() as int))),
        ),
{
    crate::sources::lemma_idx_of_range(s, '/');
    if idx_of(s, '/') < 0 {
        assert(sanitize_parts(seq![s]) =~= seq![sanitized_segment(s)]);
    } else {
        let k = idx_of(s, '/');
        let head = s.subrange(0, k);
        let tail = split_slash(s.subrange(k + 1, s.len() as int));
        assert(tail.len() >= 1);
        let parts = seq![head] + tail;
        assert(split_slash(s) == parts);
        assert(sanitize_parts(parts) =~= seq![sanitized_segment(head)] + sanitize_parts(tail));
        assert((seq![sanitized_segment(head)] + sanitize_parts(tail)).drop_first() =~= sanitize_parts(tail));
    }
}

/// Sanitizes an untrusted archive path into a safe relative path.
pub fn sanitize_file_path(path: &str) -> (r: String)
    ensures
        r@ == spec_sanitize_path(path@),
{
    let chars: Vec<char> = str_to_chars(path);
    let mut norm: Vec<char> = Vec::new();
    let mut i: usize = 0;
    let n: usize = chars.len();
    while i < n
        invariant
            i <= n,
            n == chars@.len(),
            chars@ == path@,
            norm@ =~= norm_slashes(path@).subrange(0, i as int),
        decreases n - i,
    {
        let c: char = chars[i];
        norm.push(if c == '\\' { '/' } else { c });
        assert(norm@ =~= norm_slashes(path@).subrange(0, i + 1 as int));
        i = i + 1;
    }
    assert(norm@ =~= norm_slashes(path@));
    let mut out: Vec<char> = Vec::new();
    let mut pos: usize = 0;
    loop
        invariant
            pos <= norm@.len(),
            norm@ == norm_slashes(path@),
            spec_sanitize_path(path@) == out@ + join_slash(
                sanitize_parts(split_slash(norm@.subrange(pos as int, norm@.len() as int))),
            ),
        decreases norm@.len() - pos,
    {
        let ghost rem = norm@.subrange(pos as int, norm@.len() as int);
        let nlen: usize = norm.len();
        match crate::sources::find_char(&norm, pos, '/') {
            None => {
                let seg: Vec<char> = {
                    let mut seg: Vec<char> = Vec::new();
                    let mut j: usize = pos;
                    while j < norm.len()
                        invariant
                            pos <= j <= norm@.len(),
                            seg@ == norm@.subrange(pos as int, j as int),
                        decreases norm@.len() - j,
                    {
                        seg.push(norm[j]);
                        assert(seg@ =~= norm@.subrange(pos as int, j + 1 as int));
                        j = j + 1;
                    }
                    seg
                };
                assert(seg@ =~= rem);
                let seg_s: String = chars_to_string(&seg);
                let san: String = sanitize_segment(seg_s.as_str());
                let mut san_c: Vec<char> = str_to_chars(san.as_str());
                proof {
                    lemma_sanitize_step(rem);
                }
                out.append(&mut san_c);
                let r: String = chars_to_string(&out);
                assert(r@ == spec_sanitize_path(path@));
                return r;
            },
            Some(k) => {
                let seg: Vec<char> = {
                    let mut seg: Vec<char> = Vec::new();
                    let mut j: usize = pos;
                    while j < k
                        invariant
                            pos <= j <= k,
                            k < norm@.len(),
                            seg@ == norm@.subrange(pos as int, j as int),
                        decreases k - j,
                    {
                        seg.push(norm[j]);
                        assert(seg@ =~= norm@.subrange(pos as int, j + 1 as int));
                        j = j + 1;
                    }
                    seg
                };
                proof {
                    lemma_sanitize_step(rem);
                    assert(rem.subrange(0, k - pos) =~= norm@.subrange(pos as int, k as int));
                    assert(rem.subrange(k - pos + 1, rem.len() as int) =~= norm@.subrange(
                        k + 1 as int,
                        norm@.len() as int,
                    ));
                }
                assert(seg@ =~= rem.subrange(0, k - pos));
                let seg_s: String = chars_to_string(&seg);
                let san: String = sanitize_segment(seg_s.as_str());
                let mut san_c: Vec<char> = str_to_chars(san.as_str());
                out.append(&mut san_c);
                out.push('/');
                pos = k + 1;
            },
        }
    }
}

/// One entry of an archive listing: its declared path and whether it is a
/// directory.
#[derive(Debug, Clone)]
pub struct ZipEntry {
    pub name: String,
    pub is_dir: bool,
}

/// One file operation of an install plan, with paths relative to the
/// resource-mod directory: create a directory, or write archive entry
/// `entry_index` to a fresh file.
#[derive(Debug, Clone)]
pub enum InstallAction {
    MakeDir { path: String },
    WriteFile { path: String, entry_index: usize },
}

/// Mathematical image of an `InstallAction`.
pub enum InstallActionV {
    MakeDir { path: Seq<char> },
    WriteFile { path: Seq<char>, entry_index: usize },
}

impl View for InstallAction {
    type V = InstallActionV;

    open spec fn view(&self) -> InstallActionV {
        match self {
            InstallAction::MakeDir { path } => InstallActionV::MakeDir { path: path@ },
            InstallAction::WriteFile { path, entry_index } => InstallActionV::WriteFile {
                path: path@,
                entry_index: *entry_index,
            },
        }
    }
}

/// What an install will do: the record's path list, one path per archive
/// entry in entry order, and the file operations to perform.
#[derive(Debug, Clone)]
pub struct InstallPlan {
    pub files: Vec<String>,
    pub actions: Vec<InstallAction>,
}

/// The sanitized destination of each archive entry, in entry order; this
/// is the `files` list the record will carry.
pub open spec fn spec_install_files(entries: Seq<ZipEntry>) -> Seq<Seq<char>> {
    entries.map_values(|e: ZipEntry| spec_sanitize_path(e.name@))
}

/// The actions one entry contributes: an existing directory is skipped, a
/// missing one is created, and a file is always written.
pub open spec fn entry_actions(entries: Seq<ZipEntry>, ex: Seq<bool>, i: int) -> Seq<
    InstallActionV,
> {
    if entries[i].is_dir {
        if ex[i] {
            Seq::empty()
        } else {
            seq![InstallActionV::MakeDir { path: spec_sanitize_path(entries[i].name@) }]
        }
    } else {
        seq![
            InstallActionV::WriteFile {
                path: spec_sanitize_path(entries[i].name@),
                entry_index: i as usize,
            },
        ]
    }
}

/// The actions of a whole install, in entry order.
pub open spec fn spec_install_actions(entries: Seq<ZipEntry>, ex: Seq<bool>) -> Seq<InstallActionV>
    decreases entries.len(),
{
    if entries.len() == 0 {
        Seq::empty()
    } else {
        spec_install_actions(entries.drop_last(), ex.drop_last()) + entry_actions(
            entries,
            ex,
            entries.len() - 1,
        )
    }
}

/// The first file entry whose destination already exists, or `-1`: the
/// entry on which an install is refused.
pub open spec fn first_conflict(entries: Seq<ZipEntry>, ex: Seq<bool>) -> int
    decreases entries.len(),
{
    if entries.len() == 0 {
        -1
    } else if !entries[0].is_dir && ex[0] {
        0
    } else if first_conflict(entries.drop_first(), ex.drop_first()) < 0 {
        -1
    } else {
        first_conflict(entries.drop_first(), ex.drop_first()) + 1
    }
}

/// `first_conflict` finds a conflict exactly where the entries before it
/// are clean and entry `j` is a file over an existing destination.
pub proof fn lemma_first_conflict_found(entries: Seq<ZipEntry>, ex: Seq<bool>, j: int)
    requires
        entries.len() == ex.len(),
        0 <= j < entries.len(),
        !entries[j].is_dir && ex[j],
        forall|i: int| 0 <= i < j ==> (#[trigger] entries[i]).is_dir || !ex[i],
    ensures
        first_conflict(entries, ex) == j,
    decreases j,
{
    if j > 0 {
        assert(entries[0].is_dir || !ex[0]);
        assert(entries.drop_first()[j - 1] == entries[j]);
        assert(forall|i: int| 0 <= i < j - 1 ==> (#[trigger] entries.drop_first()[i])
            == entries[i + 1]);
        assert(forall|i: int| 0 <= i < j - 1 ==> #[trigger] ex.drop_first()[i] == ex[i + 1]);
        lemma_first_conflict_found(entries.drop_first(), ex.drop_first(), j - 1);
    }
}

/// `first_conflict` finds none when every file entry's destination is
/// fresh.
pub proof fn lemma_first_conflict_none(entries: Seq<ZipEntry>, ex: Seq<bool>)
    requires
        entries.len() == ex.len(),
        forall|i: int| 0 <= i < entries.len() ==> (#[trigger] entries[i]).is_dir || !ex[i],
    ensures
        first_conflict(entries, ex) == -1,
    decreases entries.len(),
{
    if entries.len() > 0 {
        assert(forall|i: int| 0 <= i < entries.len() - 1 ==> (#[trigger] entries.drop_first()[i])
            == entries[i + 1]);
        assert(forall|i: int| 0 <= i < ex.len() - 1 ==> #[trigger] ex.drop_first()[i] == ex[i + 1]);
        lemma_first_conflict_none(entries.drop_first(), ex.drop_first());
    }
}

/// When `first_conflict` finds none, every file entry's destination was
/// fresh.
pub proof fn lemma_first_conflict_clean(entries: Seq<ZipEntry>, ex: Seq<bool>)
    requires
        entries.len() == ex.len(),
        first_conflict(entries, ex) == -1,
    ensures
        forall|i: int| 0 <= i < entries.len() ==> (#[trigger] entries[i]).is_dir || !ex[i],
    decreases entries.len(),
{
    if entries.len() > 0 {
        lemma_first_conflict_clean(entries.drop_first(), ex.drop_first());
        assert(forall|i: int| 1 <= i < entries.len() ==> (#[trigger] entries[i])
            == entries.drop_first()[i - 1]);
        assert(forall|i: int| 1 <= i < ex.len() ==> #[trigger] ex[i] == ex.drop_first()[i - 1]);
    }
}

impl ModManager {
    /// Plans the extraction of a zip archive. The caller lists the
    /// archive's entries and reports in `dest_exists[i]` whether entry
    /// `i`'s sanitized destination already exists on disk. The plan lists
    /// every sanitized path in entry order — that list becomes the
    /// record — and the operations to perform; a file entry over an
    /// existing destination refuses the whole install with the conflict,
    /// before anything is written.
    pub fn install_zip_plan(&self, entries: &Vec<ZipEntry>, dest_exists: &Vec<bool>) -> (r: Result<
        InstallPlan,
        Error,
    >)
        requires
            dest_exists@.len() == entries@.len(),
        ensures
            r is Ok <==> first_conflict(entries@, dest_exists@) == -1,
            r matches Ok(plan) ==> {
                &&& plan.files@.len() == entries@.len()
                &&& forall|i: int| 0 <= i < entries@.len() ==> (#[trigger] plan.files@[i])@
                    == spec_install_files(entries@)[i]
                &&& plan.actions@.len() == spec_install_actions(entries@, dest_exists@).len()
                &&& forall|i: int| 0 <= i < plan.actions@.len() ==> (#[trigger] plan.actions@[i])@
                    == spec_install_actions(entries@, dest_exists@)[i]
            },
            r matches Err(e) ==> first_conflict(entries@, dest_exists@) >= 0 && (e matches
            Error::FileConflict { file } && file@ == spec_sanitize_path(
                entries@[first_conflict(entries@, dest_exists@)].name@,
            )),
    {
        let mut files: Vec<String> = Vec::new();
        let mut actions: Vec<InstallAction> = Vec::new();
        let mut i: usize = 0;
        let n: usize = entries.len();
        while i < n
            invariant
                i <= n,
                n == entries@.len(),
                dest_exists@.len() == entries@.len(),
                files@.len() == i,
                forall|j: int| 0 <= j < i ==> (#[trigger] files@[j])@ == spec_sanitize_path(
                    entries@[j].name@,
                ),
                actions@.len() == spec_install_actions(
                    entries@.subrange(0, i as int),
                    dest_exists@.subrange(0, i as int),
                ).len(),
                forall|j: int| 0 <= j < actions@.len() ==> (#[trigger] actions@[j])@
                    == spec_install_actions(
                    entries@.subrange(0, i as int),
                    dest_exists@.subrange(0, i as int),
                )[j],
                forall|j: int| 0 <= j < i ==> (#[trigger] entries@[j]).is_dir || !dest_exists@[j],
            decreases n - i,
        {
            let ghost pre_e = entries@.subrange(0, i as int);
            let ghost pre_x = dest_exists@.subrange(0, i as int);
            let ghost cur_e = entries@.subrange(0, i + 1 as int);
            let ghost cur_x = dest_exists@.subrange(0, i + 1 as int);
            proof {
                assert(cur_e.drop_last() =~= pre_e);
                assert(cur_x.drop_last() =~= pre_x);
                assert(cur_e.last() == entries@[i as int]);
                assert(cur_x.last() == dest_exists@[i as int]);
                assert(entry_actions(cur_e, cur_x, cur_e.len() - 1) == entry_actions(
                    entries@,
                    dest_exists@,
                    i as int,
                ));
            }
            let san: String = sanitize_file_path(entries[i].name.as_str());
            let exists_here: bool = dest_exists[i];
            if entries[i].is_dir {
                files.push(san);
                if !exists_here {
                    actions.push(InstallAction::MakeDir { path: files[i].clone() });
                }
            } else {
                if exists_here {
                    proof {
                        lemma_first_conflict_found(entries@, dest_exists@, i as int);
                    }
                    return Err(Error::FileConflict { file: san });
                }
                files.push(san);
                actions.push(InstallAction::WriteFile { path: files[i].clone(), entry_index: i });
            }
            i = i + 1;
        }
        proof {
            assert(entries@.subrange(0, n as int) =~= entries@);
            assert(dest_exists@.subrange(0, n as int) =~= dest_exists@);
            lemma_first_conflict_none(entries@, dest_exists@);
        }
        Ok(InstallPlan { files, actions })
    }

    /// The record a finished install persists: no metadata, the install
    /// time and version, and the plan's path list.
    pub fn install_record(&self, version: &str, update_time: u64, plan: &InstallPlan) -> (r:
        Record)
        ensures
            r@.metadata == false,
            r@.update_time == update_time,
            r@.version == version@,
            r@.files.len() == plan.files@.len(),
            forall|i: int| 0 <= i < plan.files@.len() ==> r@.files[i] == (#[trigger] plan.files@[i])@,
    {
        let mut files: Vec<String> = Vec::new();
        let mut i: usize = 0;
        let n: usize = plan.files.len();
        while i < n
            invariant
                i <= n,
                n == plan.files@.len(),
                files@.len() == i,
                forall|j: int| 0 <= j < i ==> (#[trigger] files@[j])@ == plan.files@[j]@,
            decreases n - i,
        {
            files.push(plan.files[i].clone());
            i = i + 1;
        }
        Record { metadata: None, update_time, version: version.to_owned(), files }
    }

    /// The recorded paths to replay for uninstalling `id`, or nothing
    /// when the manifest has no record of it. The record itself stays in
    /// the manifest even after a successful removal — deliberately, as a
    /// trace of what was once written — so callers must not assume the
    /// manifest shrinks.
    pub fn uninstall_files(&self, records: &Records, id: &str) -> (r: Option<Vec<String>>)
        requires
            records.wf(),
        ensures
            r is Some <==> records@.contains_key(id@),
            r matches Some(files) ==> files@.len() == records@[id@].files.len()
                && forall|i: int| 0 <= i < files@.len() ==> (#[trigger] files@[i])@
                == records@[id@].files[i],
    {
        match records.get(id) {
            None => None,
            Some(rec) => {
                let mut files: Vec<String> = Vec::new();
                let mut i: usize = 0;
                let n: usize = rec.files.len();
                while i < n
                    invariant
                        i <= n,
                        n == rec.files@.len(),
                        files@.len() == i,
                        forall|j: int| 0 <= j < i ==> (#[trigger] files@[j])@ == rec.files@[j]@,
                    decreases n - i,
                {
                    files.push(rec.files[i].clone());
                    i = i + 1;
                }
                Some(files)
            },
        }
    }
}

/// What a path under the resource-mod directory can be in the directory
/// model: a regular file or a directory.
pub enum NodeKind {
    FileNode,
    DirNode,
}

/// The path each action touches.
pub open spec fn action_path(a: InstallActionV) -> Seq<char> {
    match a {
        InstallActionV::MakeDir { path } => path,
        InstallActionV::WriteFile { path, .. } => path,
    }
}

/// The directory model after the actions of an install plan ran, in
/// order.
pub open spec fn apply_actions(
    fs: Map<Seq<char>, NodeKind>,
    acts: Seq<InstallActionV>,
) -> Map<Seq<char>, NodeKind>
    decreases acts.len(),
{
    if acts.len() == 0 {
        fs
    } else {
        match acts.last() {
            InstallActionV::MakeDir { path } => apply_actions(fs, acts.drop_last()).insert(
                path,
                NodeKind::DirNode,
            ),
            InstallActionV::WriteFile { path, .. } => apply_actions(fs, acts.drop_last()).insert(
                path,
                NodeKind::FileNode,
            ),
        }
    }
}

/// The directory model after the recorded paths of one record were
/// replayed for uninstall: each listed path that is a regular file is
/// deleted; directories and unlisted paths are left alone.
pub open spec fn remove_files(
    fs: Map<Seq<char>, NodeKind>,
    files: Seq<Seq<char>>,
) -> Map<Seq<char>, NodeKind>
    decreases files.len(),
{
    if files.len() == 0 {
        fs
    } else if remove_files(fs, files.drop_last()).contains_key(files.last()) && remove_files(
        fs,
        files.drop_last(),
    )[files.last()] is FileNode {
        remove_files(fs, files.drop_last()).remove(files.last())
    } else {
        remove_files(fs, files.drop_last())
    }
}

/// Uninstall replay deletes every listed regular file, keeps listed
/// directories, and touches nothing outside the list.
pub proof fn lemma_remove_files_effect(
    fs: Map<Seq<char>, NodeKind>,
    files: Seq<Seq<char>>,
    p: Seq<char>,
)
    ensures
        remove_files(fs, files).contains_key(p) ==> fs.contains_key(p) && remove_files(
            fs,
            files,
        )[p] == fs[p],
        !files.contains(p) && fs.contains_key(p) ==> remove_files(fs, files).contains_key(p),
        files.contains(p) && fs.contains_key(p) && fs[p] is FileNode ==> !remove_files(
            fs,
            files,
        ).contains_key(p),
    decreases files.len(),
{
    if files.len() > 0 {
        lemma_remove_files_effect(fs, files.drop_last(), p);
        let prev = remove_files(fs, files.drop_last());
        let out = remove_files(fs, files);
        if files.contains(p) && fs.contains_key(p) && fs[p] is FileNode {
            if p == files.last() {
                if prev.contains_key(p) {
                    assert(prev[p] == fs[p]);
                }
                assert(!out.contains_key(p));
            } else {
                let i = choose|i: int| 0 <= i < files.len() && files[i] == p;
                assert(files.drop_last()[i] == p);
                assert(files.drop_last().contains(p));
                assert(!prev.contains_key(p));
            }
        }
        if !files.contains(p) {
            if p == files.last() {
                assert(files[files.len() - 1] == p);
                assert(files.contains(p));
            }
            if files.drop_last().contains(p) {
                let i = choose|i: int|
                    0 <= i < files.drop_last().len() && files.drop_last()[i] == p;
                assert(files[i] == p);
                assert(files.contains(p));
            }
        }
    }
}

/// Every action of an install plan touches a path on the record's list.
pub proof fn lemma_actions_touch_listed(entries: Seq<ZipEntry>, ex: Seq<bool>, i: int)
    requires
        0 <= i < spec_install_actions(entries, ex).len(),
    ensures
        spec_install_files(entries).contains(action_path(spec_install_actions(entries, ex)[i])),
    decreases entries.len(),
{
    let acts = spec_install_actions(entries, ex);
    if entries.len() > 0 {
        let prefix = spec_install_actions(entries.drop_last(), ex.drop_last());
        if i < prefix.len() {
            lemma_actions_touch_listed(entries.drop_last(), ex.drop_last(), i);
            let p = action_path(prefix[i]);
            let j = choose|j: int|
                0 <= j < spec_install_files(entries.drop_last()).len()
                    && spec_install_files(entries.drop_last())[j] == p;
            assert(spec_install_files(entries)[j] == p);
        } else {
            let j = entries.len() - 1;
            assert(acts[i] == entry_actions(entries, ex, j)[i - prefix.len()]);
            assert(action_path(acts[i]) == spec_sanitize_path(entries[j].name@));
            assert(spec_install_files(entries)[j] == spec_sanitize_path(entries[j].name@));
        }
    }
}

/// A path no action touches keeps its old state through an install.
pub proof fn lemma_apply_actions_untouched(
    fs: Map<Seq<char>, NodeKind>,
    acts: Seq<InstallActionV>,
    p: Seq<char>,
)
    requires
        forall|i: int| 0 <= i < acts.len() ==> action_path(#[trigger] acts[i]) != p,
    ensures
        apply_actions(fs, acts).contains_key(p) == fs.contains_key(p),
        fs.contains_key(p) ==> apply_actions(fs, acts)[p] == fs[p],
    decreases acts.len(),
{
    if acts.len() > 0 {
        assert(forall|i: int| 0 <= i < acts.len() - 1 ==> action_path(
            #[trigger] acts.drop_last()[i],
        ) != p);
        lemma_apply_actions_untouched(fs, acts.drop_last(), p);
        assert(action_path(acts.last()) != p);
    }
}

/// Every path an action wrote exists after the install ran.
pub proof fn lemma_apply_actions_present(
    fs: Map<Seq<char>, NodeKind>,
    acts: Seq<InstallActionV>,
    i: int,
)
    requires
        0 <= i < acts.len(),
    ensures
        apply_actions(fs, acts).contains_key(action_path(acts[i])),
    decreases acts.len(),
{
    if i < acts.len() - 1 {
        assert(acts.drop_last()[i] == acts[i]);
        lemma_apply_actions_present(fs, acts.drop_last(), i);
    }
}

/// Every file entry of a plan has its write action in the plan.
pub proof fn lemma_file_entry_has_action(entries: Seq<ZipEntry>, ex: Seq<bool>, j: int)
    requires
        0 <= j < entries.len(),
        !entries[j].is_dir,
    ensures
        exists|i: int| 0 <= i < spec_install_actions(entries, ex).len()
            && action_path(#[trigger] spec_install_actions(entries, ex)[i]) == spec_sanitize_path(
            entries[j].name@,
        ),
    decreases entries.len(),
{
    let acts = spec_install_actions(entries, ex);
    let prefix = spec_install_actions(entries.drop_last(), ex.drop_last());
    if j == entries.len() - 1 {
        assert(acts[prefix.len() as int] == entry_actions(entries, ex, j)[0]);
        assert(action_path(acts[prefix.len() as int]) == spec_sanitize_path(entries[j].name@));
    } else {
        assert(entries.drop_last()[j] == entries[j]);
        lemma_file_entry_has_action(entries.drop_last(), ex.drop_last(), j);
        let i = choose|i: int|
            0 <= i < prefix.len() && action_path(#[trigger] prefix[i]) == spec_sanitize_path(
                entries.drop_last()[j].name@,
            );
        assert(acts[i] == prefix[i]);
    }
}

/// Undoing an install removes every regular file the record lists and
/// leaves every path outside the record exactly as it was before the
/// install: the record is a faithful replay script.
pub proof fn lemma_uninstall_undoes_install(
    fs: Map<Seq<char>, NodeKind>,
    entries: Seq<ZipEntry>,
    ex: Seq<bool>,
)
    ensures
        forall|p: Seq<char>|
            spec_install_files(entries).contains(p) && apply_actions(
                fs,
                spec_install_actions(entries, ex),
            ).contains_key(p) && apply_actions(fs, spec_install_actions(entries, ex))[p] is FileNode
                ==> !remove_files(
                apply_actions(fs, spec_install_actions(entries, ex)),
                spec_install_files(entries),
            ).contains_key(p),
        forall|p: Seq<char>| !spec_install_files(entries).contains(p) ==> remove_files(
            apply_actions(fs, spec_install_actions(entries, ex)),
            spec_install_files(entries),
        ).contains_key(p) == fs.contains_key(p),
        forall|p: Seq<char>| !spec_install_files(entries).contains(p) && fs.contains_key(p)
            ==> remove_files(
            apply_actions(fs, spec_install_actions(entries, ex)),
            spec_install_files(entries),
        )[p] == fs[p],
{
    let acts = spec_install_actions(entries, ex);
    let fls = spec_install_files(entries);
    let fs1 = apply_actions(fs, acts);
    let fs2 = remove_files(fs1, fls);
    assert forall|p: Seq<char>|
        fls.contains(p) && fs1.contains_key(p) && fs1[p] is FileNode
        implies !fs2.contains_key(p) by {
        lemma_remove_files_effect(fs1, fls, p);
    }
    assert forall|p: Seq<char>| !fls.contains(p) implies fs2.contains_key(p) == fs.contains_key(p)
        && (fs.contains_key(p) ==> fs2[p] == fs[p]) by {
        assert forall|i: int| 0 <= i < acts.len() implies action_path(#[trigger] acts[i]) != p by {
            lemma_actions_touch_listed(entries, ex, i);
        }
        lemma_apply_actions_untouched(fs, acts, p);
        lemma_remove_files_effect(fs1, fls, p);
        assert(fs2.contains_key(p) == fs1.contains_key(p));
        if fs1.contains_key(p) {
            assert(fs2[p] == fs1[p]);
        }
    }
}

/// Retrying an install whose earlier attempt only created directories is
/// safe: directory entries over existing directories are skipped, so
/// planning succeeds again.
pub proof fn lemma_retry_after_dirs(entries: Seq<ZipEntry>, ex: Seq<bool>)
    requires
        entries.len() == ex.len(),
        forall|j: int| 0 <= j < ex.len() ==> ex[j] ==> (#[trigger] entries[j]).is_dir,
    ensures
        first_conflict(entries, ex) == -1,
{
    lemma_first_conflict_none(entries, ex);
}

/// Re-running an install verbatim after its file writes landed is
/// refused: every file entry's destination now exists, so planning
/// reports a conflict.
pub proof fn lemma_rerun_after_success(
    fs: Map<Seq<char>, NodeKind>,
    entries: Seq<ZipEntry>,
    ex: Seq<bool>,
    ex2: Seq<bool>,
    j: int,
)
    requires
        entries.len() == ex2.len(),
        0 <= j < entries.len(),
        !entries[j].is_dir,
        forall|i: int| 0 <= i < entries.len() ==> #[trigger] ex2[i] == apply_actions(
            fs,
            spec_install_actions(entries, ex),
        ).contains_key(spec_sanitize_path(entries[i].name@)),
    ensures
        first_conflict(entries, ex2) >= 0,
{
    let acts = spec_install_actions(entries, ex);
    let fs1 = apply_actions(fs, acts);
    lemma_file_entry_has_action(entries, ex, j);
    let i = choose|i: int|
        0 <= i < acts.len() && action_path(#[trigger] acts[i]) == spec_sanitize_path(
            entries[j].name@,
        );
    lemma_apply_actions_present(fs, acts, i);
    assert(ex2[j]);
    if first_conflict(entries, ex2) == -1 {
        lemma_first_conflict_clean(entries, ex2);
        assert(entries[j].is_dir || !ex2[j]);
    }
}

} // verus!
