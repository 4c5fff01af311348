use vstd::prelude::*;
use crate::git::cli::string_views;
use crate::shortcuts::{Key, KeyboardEvent, Modifiers, NamedKey};
use crate::sidebar::{
    copy_target, paths_for_targets, dedup_first, same_target, target_for_row, targeted, visible_targets, State,
    SidebarTarget, TargetSet, TargetView,
};
use crate::tree::SidebarRow;
use crate::state::ActivePane;
use crate::views::last_index;

verus! {

/// The indentation depth of a row: 0 for the root.
pub open spec fn row_depth(row: SidebarRow) -> int {
    match row {
        SidebarRow::Root { .. } => 0,
        SidebarRow::Dir { depth, .. } => depth as int,
        SidebarRow::File { depth, .. } => depth as int,
    }
}

/// The indentation depth of a row: 0 for the root.
pub fn sidebar_row_depth(row: &SidebarRow) -> (d: usize)
    ensures
        d == row_depth(*row),
{
    match row {
        SidebarRow::Root { .. } => 0,
        SidebarRow::Dir { depth, .. } => *depth,
        SidebarRow::File { depth, .. } => *depth,
    }
}

/// The directory that contains `path`: its text before the last `/`, if it has one.
pub open spec fn parent_of(path: Seq<char>) -> Option<TargetView> {
    let k = last_index(path, '/');
    if k >= 0 {
        Some(TargetView::Dir(path.take(k)))
    } else {
        None
    }
}

/// The directory that contains the directory at `path`, if any.
pub fn parent_dir_target(path: &str) -> (r: Option<SidebarTarget>)
    ensures
        match r {
            Some(t) => parent_of(path@) == Some(t@),
            None => parent_of(path@) is None,
        },
{
    let (dir, _name) = crate::views::split_path_parts(path);
    if last_slash(path) {
        Some(SidebarTarget::Dir(dir.to_owned()))
    } else {
        None
    }
}

/// The directory that contains the file at `path`, if any.
pub fn file_parent_target(path: &str) -> (r: Option<SidebarTarget>)
    ensures
        match r {
            Some(t) => parent_of(path@) == Some(t@),
            None => parent_of(path@) is None,
        },
{
    parent_dir_target(path)
}

fn last_slash(path: &str) -> (b: bool)
    ensures
        b == (last_index(path@, '/') >= 0),
{
    let cs = crate::text::to_chars(path);
    let mut i: usize = cs.len();
    proof {
        assert(cs@.take(i as int) =~= cs@);
    }
    while i > 0 && cs[i - 1] != '/'
        invariant
            cs@ == path@,
            i <= cs@.len(),
            last_index(cs@, '/') == last_index(cs@.take(i as int), '/'),
        decreases i,
    {
        proof {
            assert(cs@.take(i as int).drop_last() =~= cs@.take(i - 1));
        }
        i = i - 1;
    }
    proof {
        if i == 0 {
            assert(cs@.take(0) =~= Seq::<char>::empty());
        } else {
            assert(cs@.take(i as int).last() == cs@[i - 1]);
        }
    }
    i > 0
}

/// No modifier other than shift is held.
pub open spec fn spec_without_shift(m: Modifiers) -> bool {
    !m.control && !m.alt && !m.logo
}

/// Alt alone is held.
pub open spec fn spec_alt_only(m: Modifiers) -> bool {
    m.alt && !m.shift && !m.control && !m.logo
}

/// No modifier is held.
pub open spec fn spec_no_modifiers(m: Modifiers) -> bool {
    !m.shift && !m.control && !m.alt && !m.logo
}

/// No modifier other than shift is held.
pub fn modifiers_without_shift(m: Modifiers) -> (b: bool)
    ensures
        b == spec_without_shift(m),
{
    !m.control && !m.alt && !m.logo
}

/// Alt alone is held.
pub fn modifiers_alt_only(m: Modifiers) -> (b: bool)
    ensures
        b == spec_alt_only(m),
{
    m.alt && !m.shift && !m.control && !m.logo
}

/// No modifier is held.
pub fn no_shortcut_modifiers(m: Modifiers) -> (b: bool)
    ensures
        b == spec_no_modifiers(m),
{
    !m.shift && !m.control && !m.alt && !m.logo
}

/// What a key press in the file list asks for.
#[derive(Debug, Clone, Copy, PartialEq, Eq, Structural)]
pub enum FileListCommand {
    /// Move the focus by `delta` rows, extending the selection when `extend`.
    Navigate { delta: isize, extend: bool },
    Collapse { recursive: bool },
    Expand { recursive: bool },
    ToggleStage,
    ToggleStageAll,
    UnstageAll,
    OpenCommitComposer,
    FocusDiff,
    RequestDiscard,
    ClearSelection,
    Nothing,
}

/// The text is the letter `c` in either case.
pub open spec fn is_letter(s: Seq<char>, lower: char, upper: char) -> bool {
    s == seq![lower] || s == seq![upper]
}

/// The command for an event in the file list.
pub open spec fn spec_file_list_command(event: KeyboardEvent) -> FileListCommand {
    match event {
        KeyboardEvent::KeyPressed { key, modifiers: m } => match key {
            Key::Named(NamedKey::ArrowUp) if spec_without_shift(m) => FileListCommand::Navigate {
                delta: -1isize,
                extend: m.shift,
            },
            Key::Named(NamedKey::ArrowDown) if spec_without_shift(m) => FileListCommand::Navigate {
                delta: 1isize,
                extend: m.shift,
            },
            Key::Named(NamedKey::ArrowLeft) if spec_alt_only(m) => FileListCommand::Collapse { recursive: true },
            Key::Named(NamedKey::ArrowRight) if spec_alt_only(m) => FileListCommand::Expand { recursive: true },
            Key::Named(NamedKey::ArrowLeft) if spec_without_shift(m) => FileListCommand::Collapse { recursive: false },
            Key::Named(NamedKey::ArrowRight) if spec_without_shift(m) => FileListCommand::Expand { recursive: false },
            Key::Named(NamedKey::Space) if spec_without_shift(m) => FileListCommand::ToggleStage,
            Key::Character(c) if spec_no_modifiers(m) && is_letter(c@, 'a', 'A') => FileListCommand::ToggleStageAll,
            Key::Character(c) if spec_no_modifiers(m) && is_letter(c@, 'u', 'U') => FileListCommand::UnstageAll,
            Key::Character(c) if spec_no_modifiers(m) && is_letter(c@, 'c', 'C') => FileListCommand::OpenCommitComposer,
            Key::Named(NamedKey::Enter) if spec_no_modifiers(m) => FileListCommand::FocusDiff,
            Key::Named(NamedKey::Backspace) if spec_no_modifiers(m) => FileListCommand::RequestDiscard,
            Key::Named(NamedKey::Delete) if spec_no_modifiers(m) => FileListCommand::RequestDiscard,
            Key::Named(NamedKey::Escape) => FileListCommand::ClearSelection,
            _ => FileListCommand::Nothing,
        },
        _ => FileListCommand::Nothing,
    }
}

/// The keys of the file list: Space (with no modifier but shift) stages or unstages the
/// targeted files; the up and down arrows move the focus one row, extending the
/// selection with shift; left and right collapse and expand (recursively with Alt
/// alone); Enter focuses the diff, Backspace and Delete ask to discard, and `a`, `u`
/// and `c` in either case (all with no modifier) stage all, unstage all and open the
/// commit composer; Escape clears the selection whatever the modifiers; a key release
/// or a change of modifiers does nothing.
pub proof fn lemma_file_list_keys(m: Modifiers, s: String)
    ensures
        spec_without_shift(m) ==> spec_file_list_command(
            KeyboardEvent::KeyPressed { key: Key::Named(NamedKey::Space), modifiers: m },
        ) == FileListCommand::ToggleStage,
        spec_without_shift(m) ==> spec_file_list_command(
            KeyboardEvent::KeyPressed { key: Key::Named(NamedKey::ArrowUp), modifiers: m },
        ) == (FileListCommand::Navigate { delta: -1isize, extend: m.shift }),
        spec_without_shift(m) ==> spec_file_list_command(
            KeyboardEvent::KeyPressed { key: Key::Named(NamedKey::ArrowDown), modifiers: m },
        ) == (FileListCommand::Navigate { delta: 1isize, extend: m.shift }),
        spec_alt_only(m) ==> spec_file_list_command(
            KeyboardEvent::KeyPressed { key: Key::Named(NamedKey::ArrowLeft), modifiers: m },
        ) == (FileListCommand::Collapse { recursive: true }),
        spec_alt_only(m) ==> spec_file_list_command(
            KeyboardEvent::KeyPressed { key: Key::Named(NamedKey::ArrowRight), modifiers: m },
        ) == (FileListCommand::Expand { recursive: true }),
        spec_without_shift(m) && !m.alt ==> spec_file_list_command(
            KeyboardEvent::KeyPressed { key: Key::Named(NamedKey::ArrowLeft), modifiers: m },
        ) == (FileListCommand::Collapse { recursive: false }),
        spec_without_shift(m) && !m.alt ==> spec_file_list_command(
            KeyboardEvent::KeyPressed { key: Key::Named(NamedKey::ArrowRight), modifiers: m },
        ) == (FileListCommand::Expand { recursive: false }),
        spec_no_modifiers(m) ==> spec_file_list_command(
            KeyboardEvent::KeyPressed { key: Key::Named(NamedKey::Enter), modifiers: m },
        ) == FileListCommand::FocusDiff,
        spec_no_modifiers(m) ==> spec_file_list_command(
            KeyboardEvent::KeyPressed { key: Key::Named(NamedKey::Backspace), modifiers: m },
        ) == FileListCommand::RequestDiscard,
        spec_no_modifiers(m) ==> spec_file_list_command(
            KeyboardEvent::KeyPressed { key: Key::Named(NamedKey::Delete), modifiers: m },
        ) == FileListCommand::RequestDiscard,
        spec_no_modifiers(m) && (s@ == seq!['a'] || s@ == seq!['A']) ==> spec_file_list_command(
            KeyboardEvent::KeyPressed { key: Key::Character(s), modifiers: m },
        ) == FileListCommand::ToggleStageAll,
        spec_no_modifiers(m) && (s@ == seq!['u'] || s@ == seq!['U']) ==> spec_file_list_command(
            KeyboardEvent::KeyPressed { key: Key::Character(s), modifiers: m },
        ) == FileListCommand::UnstageAll,
        spec_no_modifiers(m) && (s@ == seq!['c'] || s@ == seq!['C']) ==> spec_file_list_command(
            KeyboardEvent::KeyPressed { key: Key::Character(s), modifiers: m },
        ) == FileListCommand::OpenCommitComposer,
        spec_file_list_command(KeyboardEvent::KeyPressed { key: Key::Named(NamedKey::Escape), modifiers: m })
            == FileListCommand::ClearSelection,
        spec_file_list_command(KeyboardEvent::KeyReleased { key: Key::Named(NamedKey::Space), modifiers: m })
            == FileListCommand::Nothing,
        spec_file_list_command(KeyboardEvent::ModifiersChanged(m)) == FileListCommand::Nothing,
{
    assert forall|a: char, b: char| a != b implies #[trigger] seq![a] != #[trigger] seq![b] by {
        assert(seq![a][0] == a);
        assert(seq![b][0] == b);
    }
}

fn letter_is(s: &String, lower: char, upper: char) -> (b: bool)
    ensures
        b == is_letter(s@, lower, upper),
{
    let cs = crate::text::to_chars(s.as_str());
    let b = cs.len() == 1 && (cs[0] == lower || cs[0] == upper);
    proof {
        if cs@.len() == 1 {
            assert(cs@ =~= seq![cs@[0]]);
        }
    }
    b
}

/// The command that an event in the file list asks for (see `spec_file_list_command`).
pub fn file_list_command(event: &KeyboardEvent) -> (c: FileListCommand)
    ensures
        c == spec_file_list_command(*event),
{
    let (key, m) = match event {
        KeyboardEvent::KeyPressed { key, modifiers } => (key, *modifiers),
        _ => {
            return FileListCommand::Nothing;
        },
    };
    match key {
        Key::Named(NamedKey::ArrowUp) if modifiers_without_shift(m) => FileListCommand::Navigate {
            delta: -1,
            extend: m.shift,
        },
        Key::Named(NamedKey::ArrowDown) if modifiers_without_shift(m) => FileListCommand::Navigate {
            delta: 1,
            extend: m.shift,
        },
        Key::Named(NamedKey::ArrowLeft) if modifiers_alt_only(m) => FileListCommand::Collapse { recursive: true },
        Key::Named(NamedKey::ArrowRight) if modifiers_alt_only(m) => FileListCommand::Expand { recursive: true },
        Key::Named(NamedKey::ArrowLeft) if modifiers_without_shift(m) => FileListCommand::Collapse { recursive: false },
        Key::Named(NamedKey::ArrowRight) if modifiers_without_shift(m) => FileListCommand::Expand { recursive: false },
        Key::Named(NamedKey::Space) if modifiers_without_shift(m) => FileListCommand::ToggleStage,
        Key::Character(c) if no_shortcut_modifiers(m) && letter_is(c, 'a', 'A') => FileListCommand::ToggleStageAll,
        Key::Character(c) if no_shortcut_modifiers(m) && letter_is(c, 'u', 'U') => FileListCommand::UnstageAll,
        Key::Character(c) if no_shortcut_modifiers(m) && letter_is(c, 'c', 'C') => FileListCommand::OpenCommitComposer,
        Key::Named(NamedKey::Enter) if no_shortcut_modifiers(m) => FileListCommand::FocusDiff,
        Key::Named(NamedKey::Backspace) if no_shortcut_modifiers(m) => FileListCommand::RequestDiscard,
        Key::Named(NamedKey::Delete) if no_shortcut_modifiers(m) => FileListCommand::RequestDiscard,
        Key::Named(NamedKey::Escape) => FileListCommand::ClearSelection,
        _ => FileListCommand::Nothing,
    }
}

} // verus!

verus! {

use crate::sidebar::{count_staged, has_file, path_staged, target_views};
use crate::tree::{dir_paths, parent_paths};
use crate::sidebar::{
    dirs_after_root_toggle, dirs_after_toggle, focus_ensured, model_rows, model_tree, within_list, wrapping_next,
};
use crate::tree::row_views;

/// The first position of `t` in `s` at or after `from`, or -1.
pub open spec fn position_from(s: Seq<TargetView>, t: TargetView, from: int) -> int
    decreases s.len() - from,
{
    if from < 0 || from >= s.len() {
        -1
    } else if s[from] == t {
        from
    } else {
        position_from(s, t, from + 1)
    }
}

proof fn lemma_position_from(s: Seq<TargetView>, t: TargetView, from: int)
    requires
        0 <= from,
    ensures
        position_from(s, t, from) == -1 || (from <= position_from(s, t, from) < s.len() && s[position_from(s, t, from)] == t),
        forall|k: int| from <= k < s.len() && (position_from(s, t, from) == -1 || k < position_from(s, t, from)) ==> s[k] != t,
    decreases s.len() - from,
{
    if from < s.len() && s[from] != t {
        lemma_position_from(s, t, from + 1);
    }
}

/// The row index of the focused target among the visible rows, or 0.
pub open spec fn focus_index(st: State) -> int {
    match st.focused_sidebar_target {
        Some(f) => {
            let p = position_from(visible_targets(st), f@, 0);
            if p >= 0 {
                p
            } else {
                0
            }
        },
        None => 0,
    }
}

/// `cur + delta`, kept within `0..len`.
pub open spec fn clamp_step(cur: int, delta: int, len: int) -> int {
    if cur + delta < 0 {
        0
    } else if cur + delta > len - 1 {
        len - 1
    } else {
        cur + delta
    }
}

/// `f` is `s` with the root expanded as `root_expanded`, the directories in `dirs`
/// expanded, the rows rebuilt for them, and the selection, its anchor and the focus
/// trimmed to the visible rows.
pub open spec fn rows_rebuilt(s: State, f: State, root_expanded: bool, dirs: Set<Seq<char>>) -> bool {
    let vt = visible_targets(f);
    &&& f.tree_root_expanded == root_expanded
    &&& f.expanded_dirs@ == dirs
    &&& row_views(f.cached_rows@) == model_rows(model_tree(s.files@), s.tree_root_name@, root_expanded, dirs)
    &&& f.selected_sidebar_targets@ == s.selected_sidebar_targets@.filter(|t: TargetView| vt.contains(t))
    &&& f.selection_anchor_sidebar_target == kept_if_visible(s.selection_anchor_sidebar_target, vt)
    &&& f.focused_sidebar_target == kept_if_visible(s.focused_sidebar_target, vt)
    &&& f == (State {
        tree_root_expanded: f.tree_root_expanded,
        expanded_dirs: f.expanded_dirs,
        cached_rows: f.cached_rows,
        tree_dirty: false,
        selected_sidebar_targets: f.selected_sidebar_targets,
        selection_anchor_sidebar_target: f.selection_anchor_sidebar_target,
        focused_sidebar_target: f.focused_sidebar_target,
        ..s
    })
}

/// `f` is `s` once the file at `index` was selected (see `select_file`), `r` being the
/// id of the request for its diff.
pub open spec fn file_selected(s: State, f: State, index: usize, r: Option<u64>) -> bool {
    &&& index >= s.files@.len() ==> r is None && f == s
    &&& index < s.files@.len() ==> ({
        let p = s.files@[index as int].path@;
        &&& r == Some(f.active_diff_request)
        &&& f.selected_file == Some(index)
        &&& f.selected_path matches Some(x) && x@ == p
        &&& f.focused_sidebar_target matches Some(t) && t@ == TargetView::File(p)
        &&& f.tree_root_expanded
        &&& f.expanded_dirs@ == s.expanded_dirs@.union(parent_paths(p))
        &&& !f.tree_dirty
        &&& row_views(f.cached_rows@) == model_rows(
            model_tree(s.files@),
            s.tree_root_name@,
            true,
            s.expanded_dirs@.union(parent_paths(p)),
        )
        &&& f.active_diff_request == wrapping_next(s.active_diff_request)
    })
    &&& f == (State {
        selected_file: f.selected_file,
        selected_path: f.selected_path,
        focused_sidebar_target: f.focused_sidebar_target,
        tree_root_expanded: f.tree_root_expanded,
        expanded_dirs: f.expanded_dirs,
        tree_dirty: f.tree_dirty,
        cached_rows: f.cached_rows,
        active_diff_request: f.active_diff_request,
        ..s
    })
}

/// `t` when it is among the visible targets `vt`, else none.
pub open spec fn kept_if_visible(t: Option<SidebarTarget>, vt: Seq<TargetView>) -> Option<SidebarTarget> {
    match t {
        Some(a) => if vt.contains(a@) {
            Some(a)
        } else {
            None
        },
        None => None,
    }
}

/// The selection from the anchor's position to `next` among `targets`, in either
/// direction; none when the anchor is not among them.
fn range_selection(targets: &Vec<SidebarTarget>, anchor: &SidebarTarget, next: usize) -> (r: Option<TargetSet>)
    requires
        next < targets@.len(),
    ensures
        ({
            let vt = target_views(targets@);
            let apos = position_from(vt, anchor@, 0);
            &&& apos < 0 ==> r is None
            &&& apos >= 0 ==> (r matches Some(sel) && sel@ == (if apos <= next {
                vt.subrange(apos, next + 1)
            } else {
                vt.subrange(next as int, apos + 1)
            }).to_set())
        }),
{
    let ghost vt = target_views(targets@);
    let n = targets.len();
    proof {
        lemma_position_from(vt, anchor@, 0);
    }
    let mut apos: usize = 0;
    while apos < n && !same_target(&targets[apos], anchor)
        invariant
            n == targets@.len(),
            target_views(targets@) == vt,
            apos <= n,
            forall|k: int| 0 <= k < apos ==> vt[k] != anchor@,
        decreases n - apos,
    {
        proof {
            assert(target_views(targets@)[apos as int] == targets@[apos as int]@);
        }
        apos = apos + 1;
    }
    if apos == n {
        proof {
            assert(position_from(vt, anchor@, 0) == -1) by {
                lemma_position_from(vt, anchor@, 0);
                if position_from(vt, anchor@, 0) != -1 {
                    let p = position_from(vt, anchor@, 0);
                    assert(vt[p] == anchor@);
                }
            }
        }
        return None;
    }
    proof {
        assert(target_views(targets@)[apos as int] == targets@[apos as int]@);
        assert(position_from(vt, anchor@, 0) == apos as int) by {
            lemma_position_from(vt, anchor@, 0);
            let p = position_from(vt, anchor@, 0);
            if p == -1 {
                assert(vt[apos as int] != anchor@);
            } else if p < apos {
                assert(vt[p] != anchor@);
            } else if p > apos {
                assert(vt[apos as int] != anchor@);
            }
        }
    }
    let (lo, hi) = if apos <= next { (apos, next) } else { (next, apos) };
    let mut sel = TargetSet::new();
    let mut k: usize = lo;
    proof {
        assert(vt.subrange(lo as int, lo as int).to_set() =~= Set::<TargetView>::empty());
    }
    while k <= hi
        invariant
            n == targets@.len(),
            target_views(targets@) == vt,
            lo <= hi < n,
            lo <= k <= hi + 1,
            sel@ == vt.subrange(lo as int, k as int).to_set(),
        decreases hi + 1 - k,
    {
        let t = copy_target(&targets[k]);
        proof {
            assert(target_views(targets@)[k as int] == targets@[k as int]@);
        }
        sel.insert(t);
        proof {
            let a = vt.subrange(lo as int, k as int);
            let b = vt.subrange(lo as int, k + 1);
            assert forall|x: TargetView| #[trigger] b.to_set().contains(x) == a.to_set().insert(vt[k as int]).contains(x) by {
                if b.contains(x) {
                    let j = choose|j: int| 0 <= j < b.len() && b[j] == x;
                    if j < a.len() {
                        assert(a[j] == x);
                    }
                }
                if a.contains(x) {
                    let j = choose|j: int| 0 <= j < a.len() && a[j] == x;
                    assert(b[j] == x);
                }
                if x == vt[k as int] {
                    assert(b[k - lo] == x);
                }
            }
            assert(b.to_set() =~= a.to_set().insert(vt[k as int]));
        }
        k = k + 1;
    }
    Some(sel)
}

/// `cur + delta`, kept within `0..n`.
fn clamped_step(cur: usize, delta: isize, n: usize) -> (next: usize)
    requires
        cur < n,
    ensures
        next as int == clamp_step(cur as int, delta as int, n as int),
{
    if delta >= 0 {
        let d = delta as usize;
        if d >= n - 1 - cur {
            n - 1
        } else {
            cur + d
        }
    } else {
        let d = ((0isize - (delta + 1)) as usize) + 1;
        if d > cur {
            0
        } else {
            cur - d
        }
    }
}

/// The target the range selection is anchored at: the anchor, else the focused target,
/// else the target at `cur`.
pub open spec fn anchor_of(st: State, cur: int) -> TargetView {
    match st.selection_anchor_sidebar_target {
        Some(a) => a@,
        None => match st.focused_sidebar_target {
            Some(f) => f@,
            None => visible_targets(st)[cur],
        },
    }
}

/// The outcome of expanding or collapsing the focused row.
#[derive(Debug, Clone)]
pub enum RowOutcome {
    /// Nothing to do.
    Nothing,
    /// The rows changed; scroll the focused row into view.
    Scroll,
    /// Focus this target next.
    Focus(SidebarTarget),
}

/// What staging the targeted files does.
#[derive(Debug, Clone)]
pub enum StagePlan {
    Nothing,
    Stage(Vec<String>),
    Unstage(Vec<String>),
}

/// What staging every file does.
#[derive(Debug, Clone, Copy, PartialEq, Eq, Structural)]
pub enum StageAllPlan {
    Nothing,
    /// Stage everything; this many files are changed.
    StageAll(usize),
    /// Unstage everything; this many files have staged changes.
    UnstageAll(usize),
}

/// `"<verb> <count> file"` with an `s` unless the count is one.
pub open spec fn files_message_text(verb: Seq<char>, count: nat) -> Seq<char> {
    verb + " "@ + crate::text::decimal(count) + " file"@ + crate::state::plural(count, "s"@)
}

/// The status message after staging or unstaging `count` files.
pub fn files_message(verb: &str, count: usize) -> (r: String)
    ensures
        r@ == files_message_text(verb@, count as nat),
{
    let mut s = verb.to_owned();
    crate::text::push_str(&mut s, " ");
    crate::text::push_decimal(&mut s, count);
    crate::text::push_str(&mut s, " file");
    if count != 1 {
        crate::text::push_str(&mut s, "s");
    } else {
        proof {
            assert(crate::state::plural(count as nat, "s"@) =~= Seq::<char>::empty());
            assert(s@ =~= s@ + Seq::<char>::empty());
        }
    }
    s
}

/// The target of the row just below the focused one when that row lies deeper.
pub open spec fn first_child_target(st: State) -> Option<TargetView> {
    match st.focused_sidebar_target {
        Some(f) => {
            let p = position_from(visible_targets(st), f@, 0);
            if p >= 0 && p + 1 < st.cached_rows@.len() && row_depth(st.cached_rows@[p + 1]) > row_depth(
                st.cached_rows@[p],
            ) {
                Some(target_for_row(st.files@, st.cached_rows@[p + 1]))
            } else {
                None
            }
        },
        None => None,
    }
}

impl State {
    /// The target of the row just below the focused one, when that row lies deeper (see
    /// `first_child_target`).
    pub fn focus_first_visible_child(&self) -> (r: Option<SidebarTarget>)
        ensures
            match r {
                Some(t) => first_child_target(*self) == Some(t@),
                None => first_child_target(*self) is None,
            },
    {
        let idx = match self.focused_sidebar_row_index() {
            Some(i) => i,
            None => {
                proof {
                    if self.focused_sidebar_target is Some {
                        lemma_position_from(visible_targets(*self), self.focused_sidebar_target->Some_0@, 0);
                    }
                }
                return None;
            },
        };
        proof {
            lemma_position_from(visible_targets(*self), self.focused_sidebar_target->Some_0@, 0);
        }
        if idx >= self.cached_rows.len() || idx + 1 >= self.cached_rows.len() {
            return None;
        }
        let current_depth = sidebar_row_depth(&self.cached_rows[idx]);
        let next_depth = sidebar_row_depth(&self.cached_rows[idx + 1]);
        if next_depth <= current_depth {
            return None;
        }
        Some(self.sidebar_target_for_row(&self.cached_rows[idx + 1]))
    }

    /// Focuses `target` and gives the keyboard to the sidebar; for a file, also gives the
    /// index of the first file at its path.
    pub fn focus_sidebar_target(&mut self, target: SidebarTarget) -> (r: Option<usize>)
        ensures
            final(self).focused_sidebar_target == Some(target),
            match r {
                Some(k) => target@ matches TargetView::File(p) && k < old(self).files@.len()
                    && old(self).files@[k as int].path@ == p && forall|j: int| 0 <= j < k ==> old(self).files@[j].path@ != p,
                None => !(target@ matches TargetView::File(p) && has_file(old(self).files@, p)),
            },
            final(self).files == old(self).files,
            final(self).cached_rows == old(self).cached_rows,
            final(self).expanded_dirs == old(self).expanded_dirs,
            *final(self) == (State {
                focused_sidebar_target: Some(target),
                active_pane: ActivePane::Sidebar,
                ..*old(self)
            }),
    {
        let mut found: Option<usize> = None;
        match &target {
            SidebarTarget::File(path) => {
                let mut i: usize = 0;
                while i < self.files.len() && !(self.files[i].path == *path)
                    invariant
                        i <= self.files@.len(),
                        forall|j: int| 0 <= j < i ==> self.files@[j].path@ != path@,
                    decreases self.files@.len() - i,
                {
                    i = i + 1;
                }
                if i < self.files.len() {
                    found = Some(i);
                }
            },
            _ => {},
        }
        self.focused_sidebar_target = Some(target);
        self.active_pane = ActivePane::Sidebar;
        found
    }

    /// Selects the file at `index` as the diff to show: it becomes the focused target,
    /// the directories that contain it are expanded and the rows rebuilt. Gives the id
    /// of the diff request to make, or none when `index` names no file.
    pub fn select_file(&mut self, index: usize) -> (r: Option<u64>)
        ensures
            file_selected(*old(self), *final(self), index, r),
    {
        if index >= self.files.len() {
            return None;
        }
        let path = self.files[index].path.clone();
        self.selected_file = Some(index);
        self.selected_path = Some(path.clone());
        self.focused_sidebar_target = Some(SidebarTarget::File(path.clone()));
        self.tree_root_expanded = true;
        crate::tree::expand_parent_dirs(&mut self.expanded_dirs, path.as_str());
        self.tree_dirty = true;
        self.ensure_rows_cached();
        Some(self.next_diff_request())
    }

    /// Rebuilds the rows and trims the selection, its anchor and the focus to the visible
    /// rows.
    pub(crate) fn rebuild_rows_keeping_visible(&mut self)
        requires
            old(self).tree_dirty,
        ensures
            rows_rebuilt(*old(self), *final(self), old(self).tree_root_expanded, old(self).expanded_dirs@),
    {
        self.ensure_rows_cached();
        let ghost rows = *self;
        self.retain_sidebar_selection();
        proof {
            assert(visible_targets(rows) == visible_targets(*self));
        }
    }

    /// Expands the root: recursively with every directory; an expanded root moves the
    /// focus to its first child instead.
    fn expand_root_row(&mut self, recursive: bool) -> (r: RowOutcome)
        ensures
            if recursive {
                r is Scroll && rows_rebuilt(
                    *old(self),
                    *final(self),
                    true,
                    old(self).expanded_dirs@.union(dir_paths(model_tree(old(self).files@)).to_set()),
                )
            } else if !old(self).tree_root_expanded {
                r is Scroll && rows_rebuilt(*old(self), *final(self), true, old(self).expanded_dirs@)
            } else {
                &&& match r {
                    RowOutcome::Focus(f) => first_child_target(*old(self)) == Some(f@),
                    RowOutcome::Nothing => first_child_target(*old(self)) is None,
                    RowOutcome::Scroll => false,
                }
                &&& *final(self) == *old(self)
            },
    {
        if recursive {
            self.tree_root_expanded = true;
            let all = self.all_dir_paths();
            self.expanded_dirs.extend(all);
            self.tree_dirty = true;
            self.rebuild_rows_keeping_visible();
            return RowOutcome::Scroll;
        }
        if !self.tree_root_expanded {
            self.toggle_root(false);
            self.rebuild_rows_keeping_visible();
            return RowOutcome::Scroll;
        }
        match self.focus_first_visible_child() {
            Some(t) => RowOutcome::Focus(t),
            None => RowOutcome::Nothing,
        }
    }

    /// Expands the directory at `path`: recursively with every directory inside it; an
    /// expanded directory moves the focus to its first child instead.
    fn expand_dir_row(&mut self, path: String, recursive: bool) -> (r: RowOutcome)
        ensures
            if recursive {
                r is Scroll && rows_rebuilt(
                    *old(self),
                    *final(self),
                    old(self).tree_root_expanded,
                    old(self).expanded_dirs@.insert(path@).union(
                        within_list(
                            dir_paths(model_tree(old(self).files@)),
                            path@,
                            dir_paths(model_tree(old(self).files@)).len() as int,
                        ).to_set(),
                    ),
                )
            } else if !old(self).expanded_dirs@.contains(path@) {
                r is Scroll && rows_rebuilt(
                    *old(self),
                    *final(self),
                    old(self).tree_root_expanded,
                    old(self).expanded_dirs@.insert(path@),
                )
            } else {
                &&& match r {
                    RowOutcome::Focus(f) => first_child_target(*old(self)) == Some(f@),
                    RowOutcome::Nothing => first_child_target(*old(self)) is None,
                    RowOutcome::Scroll => false,
                }
                &&& *final(self) == *old(self)
            },
    {
        if recursive {
            self.expanded_dirs.insert(path.clone());
            let below = self.descendant_dir_paths(path.as_str());
            self.expanded_dirs.extend(below);
            self.tree_dirty = true;
            self.rebuild_rows_keeping_visible();
            return RowOutcome::Scroll;
        }
        if !self.expanded_dirs.contains(&path) {
            self.toggle_dir(&path, false);
            self.rebuild_rows_keeping_visible();
            return RowOutcome::Scroll;
        }
        match self.focus_first_visible_child() {
            Some(t) => RowOutcome::Focus(t),
            None => RowOutcome::Nothing,
        }
    }

    /// The target a range selection starts from (see `anchor_of`), `targets` being the
    /// visible ones and `cur` the focused position.
    fn range_anchor(&self, targets: &Vec<SidebarTarget>, cur: usize) -> (a: SidebarTarget)
        requires
            target_views(targets@) == visible_targets(*self),
            cur < targets@.len(),
        ensures
            a@ == anchor_of(*self, cur as int),
    {
        match &self.selection_anchor_sidebar_target {
            Some(a) => copy_target(a),
            None => match &self.focused_sidebar_target {
                Some(f) => copy_target(f),
                None => {
                    proof {
                        assert(target_views(targets@)[cur as int] == targets@[cur as int]@);
                    }
                    copy_target(&targets[cur])
                },
            },
        }
    }

    /// Moves the focus by `delta` visible rows (within the rows): gives the target to
    /// focus, or none when the focus stays. With `extend`, the selection becomes the rows
    /// from the anchor to that target; else it is cleared.
    #[verifier::rlimit(100)]
    pub fn step_navigation(&mut self, delta: isize, extend: bool) -> (r: Option<SidebarTarget>)
        ensures
            ({
                let vt = visible_targets(*old(self));
                let cur = focus_index(*old(self));
                let next = clamp_step(cur, delta as int, vt.len() as int);
                let anchor = anchor_of(*old(self), cur);
                let apos = position_from(vt, anchor, 0);
                if vt.len() == 0 || next == cur || (extend && apos < 0) {
                    r is None && *final(self) == *old(self)
                } else {
                    &&& r matches Some(t) && t@ == vt[next]
                    &&& if extend {
                        &&& final(self).selection_anchor_sidebar_target matches Some(a) && a@ == anchor
                        &&& final(self).selected_sidebar_targets@ == (if apos <= next {
                            vt.subrange(apos, next + 1)
                        } else {
                            vt.subrange(next, apos + 1)
                        }).to_set()
                    } else {
                        &&& final(self).selected_sidebar_targets@ == Set::<TargetView>::empty()
                        &&& final(self).selection_anchor_sidebar_target is None
                    }
                    &&& *final(self) == (State {
                        selected_sidebar_targets: final(self).selected_sidebar_targets,
                        selection_anchor_sidebar_target: final(self).selection_anchor_sidebar_target,
                        ..*old(self)
                    })
                }
            }),
    {
        let targets = self.visible_sidebar_targets();
        let ghost vt = visible_targets(*self);
        let n = targets.len();
        if n == 0 {
            return None;
        }
        let cur = match self.focused_sidebar_row_index() {
            Some(i) => i,
            None => 0,
        };
        proof {
            if self.focused_sidebar_target is Some {
                lemma_position_from(vt, self.focused_sidebar_target->Some_0@, 0);
            }
            assert(cur as int == focus_index(*self));
        }
        let next = clamped_step(cur, delta, n);
        if next == cur {
            return None;
        }
        let next_target = copy_target(&targets[next]);
        proof {
            assert(target_views(targets@)[next as int] == targets@[next as int]@);
        }
        if extend {
            let anchor = self.range_anchor(&targets, cur);
            let sel = match range_selection(&targets, &anchor, next) {
                Some(sel) => sel,
                None => {
                    return None;
                },
            };
            self.selection_anchor_sidebar_target = Some(anchor);
            self.selected_sidebar_targets = sel;
        } else {
            self.clear_explicit_selection();
        }
        Some(next_target)
    }

    /// Brings the rows up to date, keeps the selection visible, makes sure something is
    /// focused, then moves the focus (see `step_navigation`): gives the target to focus.
    #[verifier::rlimit(80)]
    pub fn navigate_visible_rows(&mut self, delta: isize, extend: bool) -> (r: Option<SidebarTarget>)
        ensures
            !final(self).tree_dirty,
            old(self).tree_dirty ==> row_views(final(self).cached_rows@) == model_rows(
                model_tree(old(self).files@),
                old(self).tree_root_name@,
                old(self).tree_root_expanded,
                old(self).expanded_dirs@,
            ),
            !old(self).tree_dirty ==> final(self).cached_rows == old(self).cached_rows,
            ({
                let vt = visible_targets(*final(self));
                let anchor0 = kept_if_visible(old(self).selection_anchor_sidebar_target, vt);
                let focus0 = kept_if_visible(old(self).focused_sidebar_target, vt);
                let m = State { selection_anchor_sidebar_target: anchor0, ..*final(self) };
                let cur = focus_index(m);
                let next = clamp_step(cur, delta as int, vt.len() as int);
                let anchor = anchor_of(m, cur);
                let apos = position_from(vt, anchor, 0);
                &&& focus_ensured(State { focused_sidebar_target: focus0, ..*final(self) }, final(self).focused_sidebar_target)
                &&& if vt.len() == 0 || next == cur || (extend && apos < 0) {
                    &&& r is None
                    &&& final(self).selected_sidebar_targets@ == old(self).selected_sidebar_targets@.filter(
                        |t: TargetView| vt.contains(t),
                    )
                    &&& final(self).selection_anchor_sidebar_target == anchor0
                } else {
                    &&& r matches Some(t) && t@ == vt[next]
                    &&& if extend {
                        &&& final(self).selection_anchor_sidebar_target matches Some(a) && a@ == anchor
                        &&& final(self).selected_sidebar_targets@ == (if apos <= next {
                            vt.subrange(apos, next + 1)
                        } else {
                            vt.subrange(next, apos + 1)
                        }).to_set()
                    } else {
                        &&& final(self).selected_sidebar_targets@ == Set::<TargetView>::empty()
                        &&& final(self).selection_anchor_sidebar_target is None
                    }
                }
            }),
            *final(self) == (State {
                cached_rows: final(self).cached_rows,
                tree_dirty: false,
                selected_sidebar_targets: final(self).selected_sidebar_targets,
                selection_anchor_sidebar_target: final(self).selection_anchor_sidebar_target,
                focused_sidebar_target: final(self).focused_sidebar_target,
                ..*old(self)
            }),
    {
        self.ensure_rows_cached();
        let ghost rows = *self;
        self.retain_sidebar_selection();
        self.ensure_sidebar_focus();
        let ghost mid = *self;
        let r = self.step_navigation(delta, extend);
        proof {
            assert(visible_targets(rows) == visible_targets(*self));
            assert(visible_targets(mid) == visible_targets(*self));
            let m = State {
                selection_anchor_sidebar_target: kept_if_visible(
                    old(self).selection_anchor_sidebar_target,
                    visible_targets(*self),
                ),
                ..*self
            };
            assert(visible_targets(m) == visible_targets(mid));
            assert(focus_index(m) == focus_index(mid));
            assert(anchor_of(m, focus_index(m)) == anchor_of(mid, focus_index(mid)));
        }
        r
    }

    /// What staging the targeted files does: unstage them when all are staged, else
    /// stage them; nothing when no file is targeted.
    pub fn toggle_stage_plan(&self) -> (r: StagePlan)
        ensures
            ({
                let ps = dedup_first(paths_for_targets(self.files@, targeted(*self)));
                match r {
                    StagePlan::Nothing => ps.len() == 0,
                    StagePlan::Stage(v) => ps.len() > 0 && string_views(v@) == ps && !(forall|k: int|
                        0 <= k < ps.len() ==> path_staged(self.files@, #[trigger] ps[k])),
                    StagePlan::Unstage(v) => ps.len() > 0 && string_views(v@) == ps && forall|k: int|
                        0 <= k < ps.len() ==> path_staged(self.files@, #[trigger] ps[k]),
                }
            }),
    {
        let paths = self.targeted_file_paths();
        if paths.len() == 0 {
            return StagePlan::Nothing;
        }
        let all = self.are_all_paths_staged(&paths);
        let ghost ps = dedup_first(paths_for_targets(self.files@, targeted(*self)));
        proof {
            assert forall|k: int| 0 <= k < ps.len() implies #[trigger] ps[k] == paths@[k]@ by {
                assert(string_views(paths@)[k] == paths@[k]@);
            }
        }
        if all {
            proof {
                assert forall|k: int| 0 <= k < ps.len() implies path_staged(self.files@, #[trigger] ps[k]) by {
                    assert(ps[k] == paths@[k]@);
                    assert(path_staged(self.files@, paths@[k]@));
                }
            }
            StagePlan::Unstage(paths)
        } else {
            proof {
                let k = choose|k: int| 0 <= k < paths@.len() && !path_staged(self.files@, #[trigger] paths@[k]@);
                assert(ps[k] == paths@[k]@);
            }
            StagePlan::Stage(paths)
        }
    }

    /// What staging every file does: when every file is staged, unstage all (if some
    /// file is staged), else stage all; nothing without files.
    pub fn stage_all_plan(&self) -> (r: StageAllPlan)
        ensures
            self.files@.len() == 0 ==> r == StageAllPlan::Nothing,
            self.files@.len() > 0 && (forall|k: int| 0 <= k < self.files@.len() ==> #[trigger] self.files@[k].staged)
                ==> r == StageAllPlan::UnstageAll(count_staged(self.files@) as usize),
            self.files@.len() > 0 && !(forall|k: int| 0 <= k < self.files@.len() ==> #[trigger] self.files@[k].staged)
                ==> r == StageAllPlan::StageAll(self.files@.len() as usize),
    {
        let count = self.files.len();
        if count == 0 {
            return StageAllPlan::Nothing;
        }
        let mut i: usize = 0;
        while i < count
            invariant
                count == self.files@.len(),
                i <= count,
                forall|k: int| 0 <= k < i ==> #[trigger] self.files@[k].staged,
            decreases count - i,
        {
            if !self.files[i].is_staged() {
                return StageAllPlan::StageAll(count);
            }
            i = i + 1;
        }
        let staged = self.staged_file_count();
        if staged == 0 {
            StageAllPlan::Nothing
        } else {
            StageAllPlan::UnstageAll(staged)
        }
    }

    /// What unstaging every file does: unstage them all when something is staged.
    pub fn unstage_all_plan(&self) -> (r: StageAllPlan)
        ensures
            r == if count_staged(self.files@) == 0 {
                StageAllPlan::Nothing
            } else {
                StageAllPlan::UnstageAll(count_staged(self.files@) as usize)
            },
    {
        let staged = self.staged_file_count();
        if staged == 0 {
            StageAllPlan::Nothing
        } else {
            StageAllPlan::UnstageAll(staged)
        }
    }

    /// Collapses the focused row: an expanded root or directory collapses (recursively
    /// with `recursive`); otherwise the focus moves to the parent directory, or the root.
    pub fn collapse_focused_row(&mut self, recursive: bool) -> (r: RowOutcome)
        ensures
            match old(self).focused_sidebar_target {
                None => r is Nothing && *final(self) == *old(self),
                Some(t) => match t@ {
                    TargetView::Root => r is Scroll && if old(self).tree_root_expanded {
                        rows_rebuilt(*old(self), *final(self), false, dirs_after_root_toggle(*old(self), recursive))
                    } else {
                        *final(self) == *old(self)
                    },
                    TargetView::Dir(p) => if old(self).expanded_dirs@.contains(p) {
                        r is Scroll && rows_rebuilt(
                            *old(self),
                            *final(self),
                            old(self).tree_root_expanded,
                            dirs_after_toggle(*old(self), p, recursive),
                        )
                    } else {
                        &&& r matches RowOutcome::Focus(f) && Some(f@) == (match parent_of(p) {
                            Some(q) => Some(q),
                            None => Some(TargetView::Root),
                        })
                        &&& *final(self) == *old(self)
                    },
                    TargetView::File(p) => {
                        &&& r matches RowOutcome::Focus(f) && Some(f@) == (match parent_of(p) {
                            Some(q) => Some(q),
                            None => Some(TargetView::Root),
                        })
                        &&& *final(self) == *old(self)
                    },
                },
            },
    {
        let target = match &self.focused_sidebar_target {
            Some(t) => copy_target(t),
            None => {
                return RowOutcome::Nothing;
            },
        };
        match target {
            SidebarTarget::Root => {
                if self.tree_root_expanded {
                    self.toggle_root(recursive);
                    self.rebuild_rows_keeping_visible();
                }
                RowOutcome::Scroll
            },
            SidebarTarget::Dir(path) => {
                if self.expanded_dirs.contains(&path) {
                    self.toggle_dir(&path, recursive);
                    self.rebuild_rows_keeping_visible();
                    RowOutcome::Scroll
                } else {
                    match parent_dir_target(path.as_str()) {
                        Some(p) => RowOutcome::Focus(p),
                        None => RowOutcome::Focus(SidebarTarget::Root),
                    }
                }
            },
            SidebarTarget::File(path) => {
                match file_parent_target(path.as_str()) {
                    Some(p) => RowOutcome::Focus(p),
                    None => RowOutcome::Focus(SidebarTarget::Root),
                }
            },
        }
    }

    /// Expands the focused row: the root or a directory expands (recursively, with all
    /// directories below it); when it is expanded already the focus moves to its first
    /// child row. A file has nothing to expand.
    pub fn expand_focused_row(&mut self, recursive: bool) -> (r: RowOutcome)
        ensures
            match old(self).focused_sidebar_target {
                None => r is Nothing && *final(self) == *old(self),
                Some(t) => match t@ {
                    TargetView::Root => if recursive {
                        r is Scroll && rows_rebuilt(
                            *old(self),
                            *final(self),
                            true,
                            old(self).expanded_dirs@.union(dir_paths(model_tree(old(self).files@)).to_set()),
                        )
                    } else if !old(self).tree_root_expanded {
                        r is Scroll && rows_rebuilt(*old(self), *final(self), true, old(self).expanded_dirs@)
                    } else {
                        &&& match r {
                            RowOutcome::Focus(f) => first_child_target(*old(self)) == Some(f@),
                            RowOutcome::Nothing => first_child_target(*old(self)) is None,
                            RowOutcome::Scroll => false,
                        }
                        &&& *final(self) == *old(self)
                    },
                    TargetView::Dir(p) => if recursive {
                        r is Scroll && rows_rebuilt(
                            *old(self),
                            *final(self),
                            old(self).tree_root_expanded,
                            old(self).expanded_dirs@.insert(p).union(
                                within_list(
                                    dir_paths(model_tree(old(self).files@)),
                                    p,
                                    dir_paths(model_tree(old(self).files@)).len() as int,
                                ).to_set(),
                            ),
                        )
                    } else if !old(self).expanded_dirs@.contains(p) {
                        r is Scroll && rows_rebuilt(
                            *old(self),
                            *final(self),
                            old(self).tree_root_expanded,
                            old(self).expanded_dirs@.insert(p),
                        )
                    } else {
                        &&& match r {
                            RowOutcome::Focus(f) => first_child_target(*old(self)) == Some(f@),
                            RowOutcome::Nothing => first_child_target(*old(self)) is None,
                            RowOutcome::Scroll => false,
                        }
                        &&& *final(self) == *old(self)
                    },
                    TargetView::File(_) => r is Nothing && *final(self) == *old(self),
                },
            },
    {
        let target = match &self.focused_sidebar_target {
            Some(t) => copy_target(t),
            None => {
                return RowOutcome::Nothing;
            },
        };
        match target {
            SidebarTarget::Root => self.expand_root_row(recursive),
            SidebarTarget::Dir(path) => self.expand_dir_row(path, recursive),
            SidebarTarget::File(_) => RowOutcome::Nothing,
        }
    }
}

} // verus!
