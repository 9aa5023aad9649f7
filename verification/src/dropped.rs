//! Files dropped on the window or on the sound list: reading the dropped
//! URI list, decoding `file://` URIs, and what an import of the drop does
//! and says.

use vstd::prelude::*;
use crate::text::{split_lines, trim_seq};
use crate::format::decimal;
use crate::preferences::push_str;

verus! {

/// The lines worth reading: each trimmed, without blank lines and comments.
pub open spec fn kept_lines(lines: Seq<Seq<char>>) -> Seq<Seq<char>>
    decreases lines.len(),
{
    if lines.len() == 0 {
        Seq::empty()
    } else {
        let earlier = kept_lines(lines.drop_last());
        let t = trim_seq(lines.last());
        if t.len() == 0 || t[0] == '#' {
            earlier
        } else {
            earlier.push(t)
        }
    }
}

/// The entries of a `text/uri-list`: its lines, trimmed, without blank
/// lines and `#` comments. (Splitting at line feeds alone reads the list as
/// `str::lines` does, since trimming drops a carriage return.)
pub open spec fn uri_lines(list: Seq<char>) -> Seq<Seq<char>> {
    kept_lines(split_lines(list))
}

fn keep_line(kept: &mut Vec<String>, line: &Vec<char>)
    ensures
        final(kept).deep_view() == (if trim_seq(line@).len() == 0 || trim_seq(line@)[0] == '#' {
            old(kept).deep_view()
        } else {
            old(kept).deep_view().push(trim_seq(line@))
        }),
{
    let (a, b) = crate::text::trim_bounds(line);
    if b <= a {
        return;
    }
    if line[a] == '#' {
        return;
    }
    let t = crate::text::string_from_chars(line, a, b);
    let ghost before = kept.deep_view();
    kept.push(t);
    proof {
        assert(kept.deep_view() =~= before.push(trim_seq(line@)));
    }
}

/// The entries of the URI list `list`, in order.
pub fn uri_entries(list: &str) -> (entries: Vec<String>)
    ensures
        entries.deep_view() == uri_lines(list@),
{
    let lines = crate::text::split_lines_of(list);
    let mut kept: Vec<String> = Vec::new();
    let mut k: usize = 0;
    while k < lines.len()
        invariant
            k <= lines@.len(),
            lines.deep_view() == split_lines(list@),
            kept.deep_view() == kept_lines(lines.deep_view().take(k as int)),
        decreases lines@.len() - k,
    {
        proof {
            assert(lines.deep_view().take(k + 1).drop_last() =~= lines.deep_view().take(k as int));
            assert(lines.deep_view().take(k + 1).last() == lines@[k as int]@);
        }
        keep_line(&mut kept, &lines[k]);
        k += 1;
    }
    proof {
        assert(lines.deep_view().take(k as int) =~= lines.deep_view());
    }
    kept
}

/// The value of a hexadecimal digit.
pub open spec fn hex_digit(c: char) -> Option<u8> {
    if '0' <= c <= '9' {
        Some((c as u32 - '0' as u32) as u8)
    } else if 'a' <= c <= 'f' {
        Some((c as u32 - 'a' as u32 + 10) as u8)
    } else if 'A' <= c <= 'F' {
        Some((c as u32 - 'A' as u32 + 10) as u8)
    } else {
        None
    }
}

/// The byte two characters spell in hexadecimal, as `u8::from_str_radix`
/// reads them: two digits, or a plus sign and a digit.
pub open spec fn hex_pair(a: char, b: char) -> Option<u8> {
    match (hex_digit(a), hex_digit(b)) {
        (Some(x), Some(y)) => Some((x * 16 + y) as u8),
        (None, Some(y)) => if a == '+' {
            Some(y)
        } else {
            None
        },
        _ => None,
    }
}

/// `%XX` escapes replaced by the byte they spell, taken as a character; a
/// `%` that does not start an escape is kept with what follows.
pub open spec fn percent_decoded(s: Seq<char>) -> Seq<char>
    decreases s.len(),
{
    if s.len() == 0 {
        Seq::empty()
    } else if s[0] == '%' {
        if s.len() >= 3 && hex_pair(s[1], s[2]) is Some {
            seq![hex_pair(s[1], s[2]).unwrap() as char] + percent_decoded(s.skip(3))
        } else {
            let n: int = if s.len() >= 3 {
                2
            } else {
                s.len() - 1
            };
            seq!['%'] + s.subrange(1, 1 + n) + percent_decoded(s.skip(1 + n))
        }
    } else {
        seq![s[0]] + percent_decoded(s.skip(1))
    }
}

fn hex_digit_of(c: char) -> (d: Option<u8>)
    ensures
        d == hex_digit(c),
{
    if '0' <= c && c <= '9' {
        Some(((c as u32) - ('0' as u32)) as u8)
    } else if 'a' <= c && c <= 'f' {
        Some(((c as u32) - ('a' as u32) + 10) as u8)
    } else if 'A' <= c && c <= 'F' {
        Some(((c as u32) - ('A' as u32) + 10) as u8)
    } else {
        None
    }
}

fn hex_pair_of(a: char, b: char) -> (byte: Option<u8>)
    ensures
        byte == hex_pair(a, b),
{
    match (hex_digit_of(a), hex_digit_of(b)) {
        (Some(x), Some(y)) => Some(x * 16 + y),
        (None, Some(y)) => if a == '+' {
            Some(y)
        } else {
            None
        },
        _ => None,
    }
}

/// Decodes the `%XX` escapes of `s`.
pub fn percent_decode(s: &str) -> (decoded: String)
    ensures
        decoded@ == percent_decoded(s@),
{
    let v = crate::text::chars_of(s);
    let mut out: Vec<char> = Vec::new();
    let mut i: usize = 0;
    proof {
        assert(v@.skip(0) =~= v@);
    }
    while i < v.len()
        invariant
            i <= v@.len(),
            v@ == s@,
            percent_decoded(v@) == out@ + percent_decoded(v@.skip(i as int)),
        decreases v@.len() - i,
    {
        let ghost rest = v@.skip(i as int);
        let ghost before = out@;
        if v[i] == '%' {
            let pair = if v.len() - i > 2 {
                hex_pair_of(v[i + 1], v[i + 2])
            } else {
                None
            };
            match pair {
                Some(byte) => {
                    out.push(byte as char);
                    proof {
                        assert(rest[1] == v@[i + 1]);
                        assert(rest[2] == v@[i + 2]);
                        assert(rest.skip(3) =~= v@.skip(i + 3));
                        assert(out@ =~= before + seq![byte as char]);
                    }
                    i += 3;
                },
                None => {
                    out.push('%');
                    let n: usize = if v.len() - i > 2 {
                        2
                    } else {
                        v.len() - i - 1
                    };
                    let mut j: usize = 1;
                    while j <= n
                        invariant
                            1 <= j <= n + 1,
                            n <= 2,
                            i < v.len(),
                            i + n < v.len(),
                            out@ == before + seq!['%'] + v@.subrange(i + 1, i + j),
                        decreases n + 1 - j,
                    {
                        out.push(v[i + j]);
                        proof {
                            assert(out@ =~= before + seq!['%'] + v@.subrange(i + 1, i + j + 1));
                        }
                        j += 1;
                    }
                    proof {
                        if rest.len() >= 3 {
                            assert(rest[1] == v@[i + 1]);
                            assert(rest[2] == v@[i + 2]);
                        }
                        assert(rest.subrange(1, 1 + n) =~= v@.subrange(i + 1, i + n + 1));
                        assert(rest.skip(1 + n) =~= v@.skip(i + 1 + n));
                        assert(out@ =~= before + (seq!['%'] + rest.subrange(1, 1 + n)));
                    }
                    i += 1 + n;
                },
            }
        } else {
            out.push(v[i]);
            proof {
                assert(rest.skip(1) =~= v@.skip(i + 1));
                assert(out@ =~= before + seq![v@[i as int]]);
            }
            i += 1;
        }
        proof {
            assert(percent_decoded(v@) == out@ + percent_decoded(v@.skip(i as int)));
        }
    }
    proof {
        assert(v@.skip(i as int) =~= Seq::<char>::empty());
        assert(out@ + Seq::<char>::empty() =~= out@);
    }
    let n = out.len();
    let decoded = crate::text::string_from_chars(&out, 0, n);
    proof {
        assert(out@.subrange(0, n as int) =~= out@);
    }
    decoded
}

/// A `file://` URI.
pub open spec fn is_file_uri(line: Seq<char>) -> bool {
    line.len() >= 7 && line[0] == 'f' && line[1] == 'i' && line[2] == 'l' && line[3] == 'e'
        && line[4] == ':' && line[5] == '/' && line[6] == '/'
}

/// The path an entry names: a `file://` URI decoded, anything else as it
/// stands.
pub open spec fn entry_path(line: Seq<char>) -> Seq<char> {
    if is_file_uri(line) {
        percent_decoded(line.skip(7))
    } else {
        line
    }
}

/// The paths the entries name, in order.
pub open spec fn entry_paths(lines: Seq<Seq<char>>) -> Seq<Seq<char>>
    decreases lines.len(),
{
    if lines.len() == 0 {
        Seq::empty()
    } else {
        entry_paths(lines.drop_last()).push(entry_path(lines.last()))
    }
}

fn file_uri(chars: &Vec<char>) -> (uri: bool)
    ensures
        uri == is_file_uri(chars@),
{
    chars.len() >= 7 && chars[0] == 'f' && chars[1] == 'i' && chars[2] == 'l' && chars[3] == 'e'
        && chars[4] == ':' && chars[5] == '/' && chars[6] == '/'
}

/// The paths a URI list dropped on the sound list names, in order.
pub fn parse_uri_list(uri_list: &str) -> (paths: Vec<String>)
    ensures
        paths.deep_view() == entry_paths(uri_lines(uri_list@)),
{
    let entries = uri_entries(uri_list);
    let mut paths: Vec<String> = Vec::new();
    let mut k: usize = 0;
    while k < entries.len()
        invariant
            k <= entries.len(),
            entries.deep_view() == uri_lines(uri_list@),
            paths.deep_view() == entry_paths(entries.deep_view().take(k as int)),
        decreases entries.len() - k,
    {
        let chars = crate::text::chars_of(entries[k].as_str());
        let path = if file_uri(&chars) {
            let rest = crate::text::string_from_chars(&chars, 7, chars.len());
            proof {
                assert(chars@.subrange(7, chars@.len() as int) =~= chars@.skip(7));
            }
            percent_decode(rest.as_str())
        } else {
            entries[k].clone()
        };
        proof {
            assert(chars@ == entries.deep_view()[k as int]);
            assert(path@ == entry_path(entries.deep_view()[k as int]));
        }
        let ghost before = paths.deep_view();
        paths.push(path);
        proof {
            let t = entries.deep_view().take(k + 1);
            assert(t.drop_last() =~= entries.deep_view().take(k as int));
            assert(paths.deep_view() =~= before.push(path@));
        }
        k += 1;
    }
    proof {
        assert(entries.deep_view().take(k as int) =~= entries.deep_view());
    }
    paths
}

/// An entry of a URI list dropped on the window.
pub enum DroppedEntry {
    /// A `file://` URI, to be resolved to a local path.
    FileUri(String),
    /// Anything else, taken as a path.
    Path(String),
}

pub open spec fn dropped_entry_view(entry: DroppedEntry) -> (bool, Seq<char>) {
    match entry {
        DroppedEntry::FileUri(uri) => (true, uri@),
        DroppedEntry::Path(path) => (false, path@),
    }
}

/// The entries of a URI list dropped on the window, in order, each told
/// apart as a `file://` URI or a path.
pub fn dropped_entries(uri_list: &str) -> (dropped: Vec<DroppedEntry>)
    ensures
        dropped@.len() == uri_lines(uri_list@).len(),
        forall|k: int|
            0 <= k < dropped@.len() ==> dropped_entry_view(#[trigger] dropped@[k]) == (
            is_file_uri(uri_lines(uri_list@)[k]),
            uri_lines(uri_list@)[k],
        ),
{
    let entries = uri_entries(uri_list);
    let mut dropped: Vec<DroppedEntry> = Vec::new();
    let mut k: usize = 0;
    while k < entries.len()
        invariant
            k <= entries.len(),
            entries.deep_view() == uri_lines(uri_list@),
            dropped@.len() == k,
            forall|m: int|
                0 <= m < k ==> dropped_entry_view(#[trigger] dropped@[m]) == (
                is_file_uri(entries.deep_view()[m]),
                entries.deep_view()[m],
            ),
        decreases entries.len() - k,
    {
        let chars = crate::text::chars_of(entries[k].as_str());
        let line = entries[k].clone();
        if file_uri(&chars) {
            dropped.push(DroppedEntry::FileUri(line));
        } else {
            dropped.push(DroppedEntry::Path(line));
        }
        k += 1;
    }
    dropped
}

/// The resolved paths, each once, in order of first appearance; entries
/// that resolved to no path are left out.
pub open spec fn unique_paths_of(paths: Seq<Option<Seq<char>>>) -> Seq<Seq<char>>
    decreases paths.len(),
{
    if paths.len() == 0 {
        Seq::empty()
    } else {
        let earlier = unique_paths_of(paths.drop_last());
        match paths.last() {
            Some(p) => if earlier.contains(p) {
                earlier
            } else {
                earlier.push(p)
            },
            None => earlier,
        }
    }
}

pub open spec fn opt_path_view(o: Option<String>) -> Option<Seq<char>> {
    match o {
        Some(s) => Some(s@),
        None => None,
    }
}

fn contains_path(paths: &Vec<String>, path: &String) -> (found: bool)
    ensures
        found == paths.deep_view().contains(path@),
{
    let mut k: usize = 0;
    while k < paths.len()
        invariant
            k <= paths.len(),
            forall|m: int| 0 <= m < k ==> paths.deep_view()[m] != path@,
        decreases paths.len() - k,
    {
        if paths[k] == *path {
            assert(paths.deep_view()[k as int] == path@);
            return true;
        }
        k += 1;
    }
    false
}

/// The dropped paths, each once, in order of first appearance.
pub fn unique_paths(resolved: &Vec<Option<String>>) -> (paths: Vec<String>)
    ensures
        paths.deep_view() == unique_paths_of(resolved@.map_values(|o: Option<String>| opt_path_view(o))),
{
    let ghost all = resolved@.map_values(|o: Option<String>| opt_path_view(o));
    let mut paths: Vec<String> = Vec::new();
    let mut k: usize = 0;
    while k < resolved.len()
        invariant
            k <= resolved.len(),
            all == resolved@.map_values(|o: Option<String>| opt_path_view(o)),
            paths.deep_view() == unique_paths_of(all.take(k as int)),
        decreases resolved.len() - k,
    {
        proof {
            assert(all.take(k + 1).drop_last() =~= all.take(k as int));
            assert(all.take(k + 1).last() == opt_path_view(resolved@[k as int]));
        }
        match &resolved[k] {
            Some(path) => {
                if !contains_path(&paths, path) {
                    let ghost before = paths.deep_view();
                    paths.push(path.clone());
                    proof {
                        assert(paths.deep_view() =~= before.push(path@));
                    }
                }
            },
            None => {},
        }
        k += 1;
    }
    proof {
        assert(all.take(k as int) =~= all);
    }
    paths
}


/// What the drop zone over the window shows.
#[derive(Clone, Copy, Debug, PartialEq, Eq, Structural)]
pub enum DropState {
    Hidden,
    Ready,
    Importing,
    Rejected,
}

/// The drop zone's title, subtitle and style class in each state; hidden,
/// it shows nothing and has no class.
pub fn drop_zone_text(state: DropState) -> (text: (&'static str, &'static str, Option<&'static str>))
    ensures
        state == DropState::Hidden ==> text.0@ == ""@ && text.1@ == ""@ && text.2 is None,
        state == DropState::Ready ==> text.0@ == "Drop Audio Files Here"@ && text.1@
            == "Supported: MP3, OGG, FLAC, M4A, AAC"@ && text.2 == Some("drop-zone-ready"),
        state == DropState::Importing ==> text.0@ == "Importing Files…"@ && text.1@
            == "Checking formats and adding sounds"@ && text.2 == Some("drop-zone-importing"),
        state == DropState::Rejected ==> text.0@ == "Unsupported Drop"@ && text.1@
            == "Drop audio files in MP3, OGG, FLAC, M4A, or AAC format"@ && text.2 == Some(
            "drop-zone-rejected",
        ),
{
    match state {
        DropState::Hidden => ("", "", None),
        DropState::Ready => ("Drop Audio Files Here", "Supported: MP3, OGG, FLAC, M4A, AAC", Some("drop-zone-ready")),
        DropState::Importing => ("Importing Files…", "Checking formats and adding sounds", Some("drop-zone-importing")),
        DropState::Rejected => ("Unsupported Drop", "Drop audio files in MP3, OGG, FLAC, M4A, or AAC format", Some("drop-zone-rejected")),
    }
}

/// Counts drags hovering the window: the drop zone shows while one does.
/// Enter and leave may come unpaired across the two drop targets, so a
/// leave never counts below zero.
pub struct DropHover {
    count: usize,
}

impl DropHover {
    pub closed spec fn hovering(&self) -> nat {
        self.count as nat
    }

    pub fn new() -> (hover: Self)
        ensures
            hover.hovering() == 0,
    {
        DropHover { count: 0 }
    }

    /// A drag entered: the zone shows, ready for the drop.
    pub fn enter(&mut self) -> (state: DropState)
        ensures
            state == DropState::Ready,
            final(self).hovering() == if old(self).hovering() == usize::MAX {
                0
            } else {
                old(self).hovering() + 1
            },
    {
        self.count = if self.count == usize::MAX {
            0
        } else {
            self.count + 1
        };
        DropState::Ready
    }

    /// A drag left: once no drag hovers, the zone hides.
    pub fn leave(&mut self) -> (hide: bool)
        ensures
            hide == (old(self).hovering() <= 1),
            final(self).hovering() == if old(self).hovering() <= 1 {
                0
            } else {
                (old(self).hovering() - 1) as nat
            },
    {
        let previous = self.count;
        if previous <= 1 {
            self.count = 0;
            true
        } else {
            self.count = previous - 1;
            false
        }
    }

    /// Something was dropped: no drag hovers any more, and the zone shows
    /// the import.
    pub fn dropped(&mut self) -> (state: DropState)
        ensures
            state == DropState::Importing,
            final(self).hovering() == 0,
    {
        self.count = 0;
        DropState::Importing
    }
}

/// What a drop on the window leads to.
pub enum DropImport {
    /// Nothing usable was dropped.
    NothingDropped,
    /// None of the dropped files is a supported audio file.
    NothingSupported,
    /// The supported files are imported into the tab, `None` for the
    /// library as a whole; `skipped` files were not supported.
    Import { paths: Vec<String>, skipped: usize, tab_id: Option<String> },
}

/// The supported paths among `paths`, in order.
pub open spec fn supported_paths(paths: Seq<Seq<char>>, supported: Seq<bool>) -> Seq<Seq<char>>
    decreases paths.len(),
{
    if paths.len() == 0 {
        Seq::empty()
    } else {
        let earlier = supported_paths(paths.drop_last(), supported.take(paths.len() - 1));
        if supported[paths.len() - 1] {
            earlier.push(paths.last())
        } else {
            earlier
        }
    }
}

/// The tab dropped files go to: none for the general tab, the library as a
/// whole; the tab itself otherwise.
pub fn import_target_tab(active_tab: &String) -> (tab: Option<String>)
    ensures
        match tab {
            Some(t) => active_tab@ != crate::folders::general_id() && t@ == active_tab@,
            None => active_tab@ == crate::folders::general_id(),
        },
{
    let general = crate::folders::general_tab_id();
    if *active_tab == general {
        None
    } else {
        Some(active_tab.clone())
    }
}

/// Sorts a drop: the dropped `paths`, with whether each is a supported
/// audio file, imported into `active_tab`.
pub fn plan_drop_import(paths: &Vec<String>, supported: &Vec<bool>, active_tab: &String) -> (plan: DropImport)
    requires
        supported@.len() == paths@.len(),
    ensures
        paths@.len() == 0 <==> plan is NothingDropped,
        plan is NothingSupported <==> paths@.len() > 0 && supported_paths(paths.deep_view(), supported@).len() == 0,
        match plan {
            DropImport::Import { paths: valid, skipped, tab_id } => {
                &&& valid.deep_view() == supported_paths(paths.deep_view(), supported@)
                &&& valid@.len() > 0
                &&& skipped + valid@.len() == paths@.len()
                &&& match tab_id {
                    Some(t) => active_tab@ != crate::folders::general_id() && t@ == active_tab@,
                    None => active_tab@ == crate::folders::general_id(),
                }
            },
            _ => true,
        },
{
    if paths.len() == 0 {
        return DropImport::NothingDropped;
    }
    let mut valid: Vec<String> = Vec::new();
    let mut skipped: usize = 0;
    let mut k: usize = 0;
    while k < paths.len()
        invariant
            k <= paths.len() == supported.len(),
            valid.deep_view() == supported_paths(paths.deep_view().take(k as int), supported@.take(k as int)),
            skipped + valid@.len() == k,
        decreases paths.len() - k,
    {
        proof {
            assert(paths.deep_view().take(k + 1).drop_last() =~= paths.deep_view().take(k as int));
            assert(supported@.take(k + 1).take(k as int) =~= supported@.take(k as int));
        }
        if supported[k] {
            let ghost before = valid.deep_view();
            valid.push(paths[k].clone());
            proof {
                assert(valid.deep_view() =~= before.push(paths.deep_view()[k as int]));
            }
        } else {
            skipped += 1;
        }
        k += 1;
    }
    proof {
        assert(paths.deep_view().take(k as int) =~= paths.deep_view());
        assert(supported@.take(k as int) =~= supported@);
    }
    if valid.len() == 0 {
        return DropImport::NothingSupported;
    }
    let tab_id = import_target_tab(active_tab);
    DropImport::Import { paths: valid, skipped, tab_id }
}

/// The toast after an import of `imported` new sounds, `skipped` files left
/// out.
pub fn import_result_message(imported: u64, skipped: u64) -> (text: String)
    ensures
        text@ == if imported == 0 && skipped == 0 {
            "Dropped files were already in the soundboard"@
        } else if imported == 0 {
            "Skipped "@ + decimal(skipped as nat) + " unsupported files"@
        } else if skipped == 0 {
            "Added "@ + decimal(imported as nat) + " sounds"@
        } else {
            "Added "@ + decimal(imported as nat) + " sounds, skipped "@ + decimal(skipped as nat)
                + " files"@
        },
{
    let mut out: Vec<char> = Vec::new();
    if imported == 0 && skipped == 0 {
        push_str(&mut out, "Dropped files were already in the soundboard");
    } else if imported == 0 {
        push_str(&mut out, "Skipped ");
        crate::format::push_decimal(&mut out, skipped);
        push_str(&mut out, " unsupported files");
    } else if skipped == 0 {
        push_str(&mut out, "Added ");
        crate::format::push_decimal(&mut out, imported);
        push_str(&mut out, " sounds");
    } else {
        push_str(&mut out, "Added ");
        crate::format::push_decimal(&mut out, imported);
        push_str(&mut out, " sounds, skipped ");
        crate::format::push_decimal(&mut out, skipped);
        push_str(&mut out, " files");
    }
    let n = out.len();
    let text = crate::text::string_from_chars(&out, 0, n);
    proof {
        assert(out@.subrange(0, n as int) =~= out@);
        assert(Seq::<char>::empty() + "Dropped files were already in the soundboard"@ =~= "Dropped files were already in the soundboard"@);
    }
    text
}

/// The toast when a drop is refused.
pub fn drop_refusal_message(plan: &DropImport) -> (text: Option<&'static str>)
    ensures
        match plan {
            DropImport::NothingDropped => text == Some("Drop supported audio files to add them"),
            DropImport::NothingSupported => text == Some("No supported audio files were dropped"),
            DropImport::Import { .. } => text is None,
        },
{
    match plan {
        DropImport::NothingDropped => Some("Drop supported audio files to add them"),
        DropImport::NothingSupported => Some("No supported audio files were dropped"),
        DropImport::Import { .. } => None,
    }
}


/// Text without a `%` decodes to itself.
pub proof fn plain_text_decodes_to_itself(s: Seq<char>)
    requires
        !s.contains('%'),
    ensures
        percent_decoded(s) == s,
    decreases s.len(),
{
    if s.len() > 0 {
        assert(s[0] != '%');
        assert(!s.skip(1).contains('%')) by {
            if s.skip(1).contains('%') {
                let j = choose|j: int| 0 <= j < s.skip(1).len() && s.skip(1)[j] == '%';
                assert(s[j + 1] == '%');
            }
        }
        plain_text_decodes_to_itself(s.skip(1));
        assert(seq![s[0]] + s.skip(1) =~= s);
    }
}

/// A dropped path is imported once however often it was dropped.
pub proof fn unique_paths_have_no_repeats(paths: Seq<Option<Seq<char>>>)
    ensures
        unique_paths_of(paths).no_duplicates(),
    decreases paths.len(),
{
    if paths.len() > 0 {
        unique_paths_have_no_repeats(paths.drop_last());
        let earlier = unique_paths_of(paths.drop_last());
        match paths.last() {
            Some(p) => {
                if !earlier.contains(p) {
                    let r = earlier.push(p);
                    assert forall|a: int, b: int|
                        0 <= a < r.len() && 0 <= b < r.len() && a != b implies r[a] != r[b] by {
                        if a == r.len() - 1 {
                            assert(earlier.contains(r[b]));
                        } else if b == r.len() - 1 {
                            assert(earlier.contains(r[a]));
                        } else {
                            assert(r[a] == earlier[a]);
                            assert(r[b] == earlier[b]);
                        }
                    }
                }
            },
            None => {},
        }
    }
}

/// Every entry of a URI list is a trimmed line that is neither blank nor a
/// comment.
pub proof fn uri_entries_are_trimmed_and_meaningful(lines: Seq<Seq<char>>)
    ensures
        forall|k: int|
            0 <= k < kept_lines(lines).len() ==> (#[trigger] kept_lines(lines)[k]).len() > 0
                && kept_lines(lines)[k][0] != '#' && trim_seq(kept_lines(lines)[k])
                == kept_lines(lines)[k],
    decreases lines.len(),
{
    if lines.len() > 0 {
        uri_entries_are_trimmed_and_meaningful(lines.drop_last());
        crate::text::lemma_trim_idempotent(lines.last());
        let earlier = kept_lines(lines.drop_last());
        let r = kept_lines(lines);
        assert forall|k: int| 0 <= k < r.len() implies (#[trigger] r[k]).len() > 0 && r[k][0] != '#'
            && trim_seq(r[k]) == r[k] by {
            if k < earlier.len() {
                assert(r[k] == earlier[k]);
            }
        }
    }
}

} // verus!
