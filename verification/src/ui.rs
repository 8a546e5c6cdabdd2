use vstd::prelude::*;

use crate::file::File;
use crate::text::{decimal, push_decimal};

verus! {

// ---------------------------------------------------------------------------
// The state of the viewer: the files, the selected one, the options window
// ---------------------------------------------------------------------------

/// The viewer's state: the catalogue of files, the folder it came from, the
/// selected file (`cursor`) and whether the options window is open.
pub struct Picr {
    pub files: Vec<File>,
    pub picked_path: Option<String>,
    pub cursor: usize,
    pub show_config: bool,
}

/// The selection after the arrow keys: down moves to the next file unless
/// the last one is selected, then up moves to the previous one unless the
/// first one is selected.
pub open spec fn moved_cursor(c: int, len: int, down: bool, up: bool) -> int {
    let c1 = if down && c < len - 1 { c + 1 } else { c };
    if up && c1 > 0 { c1 - 1 } else { c1 }
}

/// `files` with the culled mark of entry `c` flipped.
pub open spec fn toggled(files: Seq<File>, c: int) -> Seq<File> {
    files.update(c, File { path: files[c].path, culled: !files[c].culled, metadata: files[c].metadata })
}

/// `files` with the culled mark of entry `c` set to `culled`.
pub open spec fn marked(files: Seq<File>, c: int, culled: bool) -> Seq<File> {
    files.update(c, File { path: files[c].path, culled, metadata: files[c].metadata })
}

impl Picr {
    /// An empty viewer: no files, first position selected, options closed.
    pub fn new() -> (p: Picr)
        ensures
            p.files@.len() == 0,
            p.picked_path is None,
            p.cursor == 0,
            !p.show_config,
    {
        Picr { files: Vec::new(), picked_path: None, cursor: 0, show_config: false }
    }

    /// The keys pressed in a frame: `down`/`up` move the selection, `flip`
    /// (left or right arrow) flips the culled mark of the file then selected.
    pub fn input(&mut self, down: bool, up: bool, flip: bool)
        requires
            down ==> old(self).files@.len() > 0,
            flip ==> moved_cursor(old(self).cursor as int, old(self).files@.len() as int, down, up)
                < old(self).files@.len(),
        ensures
            final(self).cursor == moved_cursor(
                old(self).cursor as int,
                old(self).files@.len() as int,
                down,
                up,
            ),
            final(self).files@ == if flip {
                toggled(old(self).files@, final(self).cursor as int)
            } else {
                old(self).files@
            },
            final(self).files@.len() == old(self).files@.len(),
            forall|j: int|
                0 <= j < old(self).files@.len() && (!flip || j != final(self).cursor) ==> #[trigger] final(self).files@[j] == old(self).files@[j],
            flip ==> final(self).files@[final(self).cursor as int].culled == !old(self).files@[final(self).cursor as int].culled,
            flip ==> final(self).files@[final(self).cursor as int].path == old(self).files@[final(self).cursor as int].path,
            flip ==> final(self).files@[final(self).cursor as int].metadata == old(self).files@[final(self).cursor as int].metadata,
            final(self).picked_path == old(self).picked_path,
            final(self).show_config == old(self).show_config,
    {
        if down && self.cursor < self.files.len() - 1 {
            self.cursor = self.cursor + 1;
        }
        if up && self.cursor > 0 {
            self.cursor = self.cursor - 1;
        }
        if flip {
            let c = self.cursor;
            let ghost before = self.files@;
            let mut f = self.files.remove(c);
            f.culled = !f.culled;
            self.files.insert(c, f);
            assert(self.files@ =~= toggled(before, c as int));
        }
    }

    /// A click on entry `index` of the file list selects it; the previously
    /// selected position is returned (its preview is then released).
    pub fn select(&mut self, index: usize) -> (prev: usize)
        ensures
            prev == old(self).cursor,
            final(self).cursor == index,
            final(self).files@ == old(self).files@,
            final(self).picked_path == old(self).picked_path,
            final(self).show_config == old(self).show_config,
    {
        let prev = self.cursor;
        self.cursor = index;
        prev
    }

    /// The "Cull Image" / "Include Image" buttons: marks the selected file.
    pub fn set_culled(&mut self, culled: bool)
        requires
            old(self).cursor < old(self).files@.len(),
        ensures
            final(self).cursor == old(self).cursor,
            final(self).files@ == marked(old(self).files@, old(self).cursor as int, culled),
            final(self).files@.len() == old(self).files@.len(),
            final(self).files@[old(self).cursor as int].culled == culled,
            final(self).files@[old(self).cursor as int].path == old(self).files@[old(self).cursor as int].path,
            final(self).files@[old(self).cursor as int].metadata == old(self).files@[old(self).cursor as int].metadata,
            forall|j: int|
                0 <= j < old(self).files@.len() && j != old(self).cursor ==> #[trigger] final(self).files@[j]
                    == old(self).files@[j],
            final(self).picked_path == old(self).picked_path,
            final(self).show_config == old(self).show_config,
    {
        let c = self.cursor;
        let ghost before = self.files@;
        let mut f = self.files.remove(c);
        f.culled = culled;
        self.files.insert(c, f);
        assert(self.files@ =~= marked(before, c as int, culled));
    }

    /// Replaces the catalogue with newly loaded files; `picked` is the folder
    /// chosen in the dialog, if the files came from one. The selection is kept.
    pub fn load_files(&mut self, files: Vec<File>, picked: Option<String>)
        ensures
            final(self).files@ == files@,
            final(self).picked_path == (if picked is Some {
                picked
            } else {
                old(self).picked_path
            }),
            final(self).cursor == old(self).cursor,
            final(self).show_config == old(self).show_config,
    {
        self.files = files;
        if picked.is_some() {
            self.picked_path = picked;
        }
    }

    /// The "Options" menu entry opens the options window.
    pub fn open_config(&mut self)
        ensures
            final(self).show_config,
            final(self).files@ == old(self).files@,
            final(self).cursor == old(self).cursor,
            final(self).picked_path == old(self).picked_path,
    {
        self.show_config = true;
    }

    /// The options window's "Save" and "Close" buttons close it.
    pub fn close_config(&mut self)
        ensures
            !final(self).show_config,
            final(self).files@ == old(self).files@,
            final(self).cursor == old(self).cursor,
            final(self).picked_path == old(self).picked_path,
    {
        self.show_config = false;
    }
}

/// Marking a file touches that file's mark alone: every other file is left
/// as it was, and the marked file keeps its path and metadata.
pub proof fn lemma_marking_touches_only_the_file(files: Seq<File>, c: int, culled: bool)
    requires
        0 <= c < files.len(),
    ensures
        marked(files, c, culled).len() == files.len(),
        marked(files, c, culled)[c].culled == culled,
        marked(files, c, culled)[c].path == files[c].path,
        marked(files, c, culled)[c].metadata == files[c].metadata,
        forall|j: int| 0 <= j < files.len() && j != c ==> #[trigger] marked(files, c, culled)[j] == files[j],
        toggled(files, c).len() == files.len(),
        toggled(files, c)[c].culled == !files[c].culled,
        forall|j: int| 0 <= j < files.len() && j != c ==> #[trigger] toggled(files, c)[j] == files[j],
{
}

/// Flipping the culled mark of the same file twice leaves the files as they were.
pub proof fn lemma_flip_twice(files: Seq<File>, c: int)
    requires
        0 <= c < files.len(),
    ensures
        toggled(toggled(files, c), c) == files,
{
    assert(toggled(toggled(files, c), c) =~= files);
}

/// The arrow keys never move the selection off the list: from a file of a
/// non-empty list, the selection stays on a file.
pub proof fn lemma_cursor_stays_in_list(c: int, len: int, down: bool, up: bool)
    requires
        0 <= c < len,
    ensures
        0 <= moved_cursor(c, len, down, up) < len,
{
}

/// Down then up (in separate frames) comes back to the same file, unless the
/// last file was selected.
pub proof fn lemma_down_then_up(c: int, len: int)
    requires
        0 <= c < len - 1,
    ensures
        moved_cursor(moved_cursor(c, len, true, false), len, false, true) == c,
{
}

// ---------------------------------------------------------------------------
// Texts shown by the viewer
// ---------------------------------------------------------------------------

/// The entry of the file list for the file at `index` named `name`:
/// its 1-based number, a red cross when culled or a check mark when kept,
/// and its name.
pub open spec fn file_label_text(index: int, name: Seq<char>, culled: bool) -> Seq<char> {
    decimal((index + 1) as nat) + seq!['.', ' '] + (if culled {
        seq!['\u{274c}']
    } else {
        seq!['\u{2714}']
    }) + seq![' '] + name
}

/// Builds the file list entry of the file at `index`.
pub fn file_label(index: usize, name: &str, culled: bool) -> (r: String)
    requires
        index < usize::MAX,
    ensures
        r@ == file_label_text(index as int, name@, culled),
{
    proof {
        reveal_strlit(". ");
        reveal_strlit("\u{274c}");
        reveal_strlit("\u{2714}");
        reveal_strlit(" ");
    }
    let mut s = String::new();
    push_decimal(&mut s, (index + 1) as u64);
    s.append(". ");
    if culled {
        s.append("\u{274c}");
    } else {
        s.append("\u{2714}");
    }
    s.append(" ");
    s.append(name);
    assert(s@ =~= file_label_text(index as int, name@, culled));
    s
}

/// The line shown for a metadata entry: `key: value`.
pub fn metadata_line(key: &str, value: &str) -> (r: String)
    ensures
        r@ == key@ + seq![':', ' '] + value@,
{
    proof {
        reveal_strlit(": ");
    }
    let mut s = String::from_str(key);
    s.append(": ");
    s.append(value);
    s
}

/// A file hovered over the window: its path as displayed, if it has one,
/// and its MIME type (possibly empty).
pub struct HoveredFile {
    pub path: Option<String>,
    pub mime: String,
}

/// The line shown for a hovered file: its path, else its MIME type, else `???`.
pub open spec fn hovered_line(f: HoveredFile) -> Seq<char> {
    seq!['\n'] + match f.path {
        Some(p) => p@,
        None => if f.mime@.len() > 0 {
            f.mime@
        } else {
            seq!['?', '?', '?']
        },
    }
}

/// The heading of the drop overlay.
pub open spec fn drop_heading() -> Seq<char> {
    seq!['D', 'r', 'o', 'p', 'p', 'i', 'n', 'g', ' ', 'f', 'i', 'l', 'e', 's', ':', '\n']
}

/// The text of the drop overlay: the heading, then one line per hovered file.
pub open spec fn drop_text(files: Seq<HoveredFile>) -> Seq<char>
    decreases files.len(),
{
    if files.len() == 0 {
        drop_heading()
    } else {
        drop_text(files.drop_last()) + hovered_line(files.last())
    }
}

/// Builds the text shown while files are dragged over the window.
pub fn drop_preview_text(files: &Vec<HoveredFile>) -> (r: String)
    ensures
        r@ == drop_text(files@),
{
    proof {
        reveal_strlit("Dropping files:\n");
    }
    let mut text = String::from_str("Dropping files:\n");
    let mut i: usize = 0;
    assert(files@.take(0) =~= Seq::<HoveredFile>::empty());
    while i < files.len()
        invariant
            i <= files@.len(),
            text@ == drop_text(files@.take(i as int)),
        decreases files@.len() - i,
    {
        let f = &files[i];
        let ghost before = text@;
        proof {
            reveal_strlit("\n");
            reveal_strlit("\n???");
        }
        match &f.path {
            Some(p) => {
                text.append("\n");
                text.append(p.as_str());
                assert(text@ =~= before + seq!['\n'] + p@);
            },
            None => {
                if !f.mime.as_str().is_empty() {
                    text.append("\n");
                    text.append(f.mime.as_str());
                    assert(text@ =~= before + seq!['\n'] + f.mime@);
                } else {
                    text.append("\n???");
                    assert(text@ =~= before + seq!['\n', '?', '?', '?']);
                }
            },
        }
        assert(text@ =~= before + hovered_line(files@[i as int]));
        assert(files@.take(i + 1).drop_last() =~= files@.take(i as int));
        i = i + 1;
    }
    assert(files@.take(files@.len() as int) =~= files@);
    text
}

} // verus!
