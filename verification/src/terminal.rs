use crate::before_nul;
use crate::fat::{
    bytes_per_cluster_of, cluster_in_image, cluster_offset_of, find_file, find_file_spec, first_zero_from,
    formatted_name_of, is_entry_at, le16, le32, chain_data, copied_len, lemma_cluster_data_len, lemma_entry_in_cluster, lemma_first_zero_from,
    next_cluster_of, root_cluster_of, Bpb, DirectoryEntry, END_OF_CLUSTER_CHAIN,
};
use crate::font::{glyph_covers, text_covers, text_fits};
use crate::graphics::{color_black, color_white, in_rect, PixelColor, Rectangle, Vector2D};
use crate::window::Window;
use crate::layer::{LayerID, LayerManager};
use crate::task::{TaskID, TaskManager};
use crate::terminal_writer::{
    colors_of, cursor_colors, new_line_colors, printed_colors, window_redrawn,
    cursor_ok, cursor_pixel, new_line_cursor, print_area_message, print_cursor, raw_area, window_kept, TerminalWriter,
    COLUMNS, TOP_LEFT_X, TOP_LEFT_Y,
};
use std::collections::VecDeque;
use vstd::prelude::*;
use vstd::string::{StringExecFns, StringSliceAdditionalSpecFns};

verus! {

/// Which way a history key moves through the command history.
pub enum Direction {
    Up,
    Down,
}

/// The terminal's command history, newest command first.
///
/// `pointing_index` is the entry that the last `up` or `down` showed, counted
/// from the newest (0).
pub struct CommandHistory {
    history: VecDeque<String>,
    pointing_index: Option<usize>,
}

impl CommandHistory {
    /// How many commands the history keeps.
    pub const MAX: usize = 8;

    /// The commands held, newest first.
    pub closed spec fn entries(&self) -> Seq<Seq<char>> {
        self.history@.map_values(|s: String| s@)
    }

    /// The entry last shown, if any.
    pub closed spec fn pointing(&self) -> Option<usize> {
        self.pointing_index
    }

    pub closed spec fn wf(&self) -> bool {
        &&& self.history@.len() <= 8
        &&& (self.pointing_index matches Some(i) ==> i < self.history@.len())
    }

    pub fn new() -> (h: CommandHistory)
        ensures
            h.wf(),
            h.entries() == Seq::<Seq<char>>::empty(),
            h.pointing() is None,
    {
        let h = CommandHistory { history: VecDeque::new(), pointing_index: None };
        assert(h.entries() =~= Seq::<Seq<char>>::empty());
        h
    }

    /// The entry that `up` moves to from `pointing` in a history of `len` entries.
    pub open spec fn up_index(pointing: Option<usize>, len: nat) -> Option<usize> {
        if len == 0 {
            None
        } else {
            match pointing {
                None => Some(0usize),
                Some(i) => if i + 1 < len {
                    Some((i + 1) as usize)
                } else {
                    Some((len - 1) as usize)
                },
            }
        }
    }

    /// The entry that `down` moves to from `pointing`.
    pub open spec fn down_index(pointing: Option<usize>) -> Option<usize> {
        match pointing {
            Some(i) => if i > 0 {
                Some((i - 1) as usize)
            } else {
                None
            },
            None => None,
        }
    }

    /// The text shown for `index`: that entry, or nothing.
    pub open spec fn shown(entries: Seq<Seq<char>>, index: Option<usize>) -> Seq<char> {
        match index {
            Some(i) => entries[i as int],
            None => Seq::empty(),
        }
    }

    fn entry_at(&self, index: Option<usize>) -> (s: &str)
        requires
            self.wf(),
            index matches Some(i) ==> i < self.history@.len(),
        ensures
            s@ == Self::shown(self.entries(), index),
    {
        match index {
            Some(i) => self.history[i].as_str(),
            None => {
                proof {
                    reveal_strlit("");
                }
                ""
            },
        }
    }

    /// Moves to the next older command and returns it; stays on the oldest
    /// one; returns "" when the history is empty.
    pub fn up(&mut self) -> (s: &str)
        requires
            old(self).wf(),
        ensures
            final(self).wf(),
            final(self).entries() == old(self).entries(),
            final(self).pointing() == Self::up_index(old(self).pointing(), old(self).entries().len()),
            s@ == Self::shown(final(self).entries(), final(self).pointing()),
    {
        let len: usize = self.history.len();
        if len == 0 {
            self.pointing_index = None;
        } else {
            self.pointing_index = match self.pointing_index {
                None => Some(0),
                Some(i) => if i + 1 < len {
                    Some(i + 1)
                } else {
                    Some(len - 1)
                },
            };
        }
        self.entry_at(self.pointing_index)
    }

    /// Moves to the next newer command and returns it; past the newest one
    /// it returns "".
    pub fn down(&mut self) -> (s: &str)
        requires
            old(self).wf(),
        ensures
            final(self).wf(),
            final(self).entries() == old(self).entries(),
            final(self).pointing() == Self::down_index(old(self).pointing()),
            s@ == Self::shown(final(self).entries(), final(self).pointing()),
    {
        self.pointing_index = match self.pointing_index {
            Some(i) => if i > 0 {
                Some(i - 1)
            } else {
                None
            },
            None => None,
        };
        self.entry_at(self.pointing_index)
    }

    /// Records a command as the newest one, dropping the oldest when the
    /// history is full; an empty command is not recorded. Either way the
    /// position goes back before the newest command.
    pub fn push(&mut self, command: String)
        requires
            old(self).wf(),
        ensures
            final(self).wf(),
            final(self).pointing() is None,
            command@.len() == 0 ==> final(self).entries() == old(self).entries(),
            command@.len() > 0 && old(self).entries().len() < 8 ==> final(self).entries() == seq![command@] + old(self).entries(),
            command@.len() > 0 && old(self).entries().len() == 8 ==> final(self).entries() == seq![command@] + old(self).entries().take(7),
    {
        self.pointing_index = None;
        if command.as_str().is_empty() {
            return ;
        }
        let ghost old_entries = self.entries();
        if self.history.len() == Self::MAX {
            let _ = self.history.pop_back();
            assert(self.entries() =~= old_entries.take(7));
        }
        let ghost mid = self.entries();
        self.history.push_front(command);
        assert(self.entries() =~= seq![command@] + mid);
    }

    /// The newest command, if any.
    pub fn front(&self) -> (s: Option<&String>)
        requires
            self.wf(),
        ensures
            self.entries().len() == 0 ==> s is None,
            self.entries().len() > 0 ==> (s matches Some(c) && c@ == self.entries()[0]),
    {
        if self.history.len() == 0 {
            None
        } else {
            Some(&self.history[0])
        }
    }

    /// The oldest command, if any.
    pub fn back(&self) -> (s: Option<&String>)
        requires
            self.wf(),
        ensures
            self.entries().len() == 0 ==> s is None,
            self.entries().len() > 0 ==> (s matches Some(c) && c@ == self.entries().last()),
    {
        let n: usize = self.history.len();
        if n == 0 {
            None
        } else {
            Some(&self.history[n - 1])
        }
    }
}

} // verus!

verus! {

/// Whether `c` has the Unicode `White_Space` property.
pub open spec fn is_unicode_whitespace(c: char) -> bool {
    let v: u32 = c as u32;
    ||| 0x09 <= v <= 0x0d
    ||| v == 0x20
    ||| v == 0x85
    ||| v == 0xa0
    ||| v == 0x1680
    ||| 0x2000 <= v <= 0x200a
    ||| v == 0x2028
    ||| v == 0x2029
    ||| v == 0x202f
    ||| v == 0x205f
    ||| v == 0x3000
}

/// Whether `c` has the Unicode `White_Space` property.
pub fn is_whitespace(c: char) -> (b: bool)
    ensures
        b == is_unicode_whitespace(c),
{
    let v: u32 = c as u32;
    (0x09 <= v && v <= 0x0d) || v == 0x20 || v == 0x85 || v == 0xa0 || v == 0x1680 || (0x2000
        <= v && v <= 0x200a) || v == 0x2028 || v == 0x2029 || v == 0x202f || v == 0x205f || v
        == 0x3000
}

/// The index just past the run of non-whitespace characters that starts at `i`.
pub open spec fn token_end(s: Seq<char>, i: nat) -> nat
    decreases s.len() - i,
{
    if i < s.len() && !is_unicode_whitespace(s[i as int]) {
        token_end(s, i + 1)
    } else {
        i
    }
}

pub proof fn lemma_token_end(s: Seq<char>, i: nat)
    requires
        i <= s.len(),
    ensures
        i <= token_end(s, i) <= s.len(),
        i < s.len() && !is_unicode_whitespace(s[i as int]) ==> i < token_end(s, i),
        forall|k: int| i <= k < token_end(s, i) ==> !is_unicode_whitespace(#[trigger] s[k]),
        token_end(s, i) < s.len() ==> is_unicode_whitespace(s[token_end(s, i) as int]),
    decreases s.len() - i,
{
    if i < s.len() && !is_unicode_whitespace(s[i as int]) {
        lemma_token_end(s, i + 1);
    }
}

/// The whitespace-separated words of `s` from index `i` on.
pub open spec fn words_from(s: Seq<char>, i: nat) -> Seq<Seq<char>>
    decreases s.len() - i,
{
    if i >= s.len() {
        Seq::empty()
    } else if is_unicode_whitespace(s[i as int]) {
        words_from(s, i + 1)
    } else {
        proof {
            lemma_token_end(s, i);
        }
        seq![s.subrange(i as int, token_end(s, i) as int)] + words_from(s, token_end(s, i))
    }
}

/// Splits a command line into its whitespace-separated words; `None` when
/// the line holds no word.
pub fn parse_command(s: &str) -> (r: Option<Vec<&str>>)
    ensures
        match r {
            None => words_from(s@, 0).len() == 0,
            Some(v) => v@.len() > 0 && v@.map_values(|t: &str| t@) == words_from(s@, 0),
        },
{
    let n: usize = s.unicode_len();
    let mut v: Vec<&str> = Vec::new();
    let mut i: usize = 0;
    while i < n
        invariant
            i <= n,
            n == s@.len(),
            v@.map_values(|t: &str| t@) + words_from(s@, i as nat) == words_from(s@, 0),
        decreases n - i,
    {
        let c = s.get_char(i);
        if is_whitespace(c) {
            i += 1;
        } else {
            let start: usize = i;
            let mut j: usize = i + 1;
            proof {
                lemma_token_end(s@, start as nat);
            }
            while j < n && !is_whitespace(s.get_char(j))
                invariant
                    start < j <= n,
                    n == s@.len(),
                    token_end(s@, j as nat) == token_end(s@, start as nat),
                decreases n - j,
            {
                j += 1;
            }
            let word = s.substring_char(start, j);
            let ghost before = v@.map_values(|t: &str| t@);
            v.push(word);
            assert(v@.map_values(|t: &str| t@) =~= before.push(word@));
            assert(words_from(s@, start as nat) == seq![word@] + words_from(s@, j as nat));
            assert(before.push(word@) + words_from(s@, j as nat) =~= before + (seq![word@]
                + words_from(s@, j as nat)));
            i = j;
        }
    }
    if v.len() == 0 {
        None
    } else {
        Some(v)
    }
}


/// The index of the first word of `argv`, from `k` on, made of the single
/// character `sym`.
pub open spec fn first_symbol_from(argv: Seq<Seq<char>>, sym: char, k: int) -> Option<int>
    decreases argv.len() - k,
{
    if k < 0 || k >= argv.len() {
        None
    } else if argv[k] == seq![sym] {
        Some(k)
    } else {
        first_symbol_from(argv, sym, k + 1)
    }
}

proof fn lemma_first_symbol_from(argv: Seq<Seq<char>>, sym: char, k: int)
    requires
        0 <= k,
    ensures
        first_symbol_from(argv, sym, k) matches Some(i) ==> k <= i < argv.len() && argv[i] == seq![sym],
    decreases argv.len() - k,
{
    if k < argv.len() && argv[k] != seq![sym] {
        lemma_first_symbol_from(argv, sym, k + 1);
    }
}

/// The index of the word after the first word `sym`, when there is one.
pub open spec fn word_after_symbol(argv: Seq<Seq<char>>, sym: char) -> Option<int> {
    match first_symbol_from(argv, sym, 0) {
        Some(i) => if i + 1 < argv.len() { Some(i + 1) } else { None },
        None => None,
    }
}

fn is_symbol(word: &str, sym: char) -> (b: bool)
    ensures
        b == (word@ == seq![sym]),
{
    if word.unicode_len() == 1 && word.get_char(0) == sym {
        assert(word@ =~= seq![sym]);
        true
    } else {
        false
    }
}

fn find_word_after(argv: &[&str], sym: char) -> (r: Option<usize>)
    ensures
        r matches Some(i) ==> word_after_symbol(argv@.map_values(|t: &str| t@), sym) == Some(i as int),
        r is None ==> word_after_symbol(argv@.map_values(|t: &str| t@), sym) is None,
{
    let ghost words = argv@.map_values(|t: &str| t@);
    let mut i: usize = 0;
    while i < argv.len()
        invariant
            i <= argv@.len(),
            words == argv@.map_values(|t: &str| t@),
            first_symbol_from(words, sym, i as int) == first_symbol_from(words, sym, 0),
        decreases argv.len() - i,
    {
        if is_symbol(argv[i], sym) {
            if i + 1 < argv.len() {
                return Some(i + 1);
            } else {
                return None;
            }
        }
        i = i + 1;
    }
    None
}

/// The index of the word naming where output is redirected: the one after
/// the first `>`, when there is one.
pub fn find_redirect_dest(argv: &[&str]) -> (r: Option<usize>)
    ensures
        r matches Some(i) ==> word_after_symbol(argv@.map_values(|t: &str| t@), '>') == Some(i as int),
        r is None ==> word_after_symbol(argv@.map_values(|t: &str| t@), '>') is None,
{
    find_word_after(argv, '>')
}

/// The index of the word starting the command that output is piped to:
/// the one after the first `|`, when there is one.
pub fn find_pipe_dest(argv: &[&str]) -> (r: Option<usize>)
    ensures
        r matches Some(i) ==> word_after_symbol(argv@.map_values(|t: &str| t@), '|') == Some(i as int),
        r is None ==> word_after_symbol(argv@.map_values(|t: &str| t@), '|') is None,
{
    find_word_after(argv, '|')
}

/// The words of `strs` each followed by `separator`.
pub open spec fn joined(separator: char, strs: Seq<Seq<char>>) -> Seq<char>
    decreases strs.len(),
{
    if strs.len() == 0 {
        Seq::empty()
    } else {
        joined(separator, strs.drop_last()) + strs.last() + seq![separator]
    }
}

/// Appends `c` to `s` (std's `String::push`).
#[verifier::external_body]
pub(crate) fn push_char(s: &mut String, c: char)
    ensures
        final(s)@ == old(s)@.push(c),
{
    s.push(c);
}

/// The words of `strs` concatenated, each followed by `separator`.
pub fn join_to_string(separator: char, strs: &[&str]) -> (r: String)
    ensures
        r@ == joined(separator, strs@.map_values(|t: &str| t@)),
{
    let mut acc: String = String::new();
    let mut i: usize = 0;
    while i < strs.len()
        invariant
            i <= strs@.len(),
            acc@ == joined(separator, strs@.map_values(|t: &str| t@).take(i as int)),
        decreases strs.len() - i,
    {
        let ghost before = acc@;
        acc.append(strs[i]);
        push_char(&mut acc, separator);
        proof {
            let w = strs@.map_values(|t: &str| t@);
            assert(w.take(i + 1).drop_last() =~= w.take(i as int));
            assert(acc@ =~= before + w[i as int] + seq![separator]);
        }
        i = i + 1;
    }
    proof {
        let w = strs@.map_values(|t: &str| t@);
        assert(w.take(strs@.len() as int) =~= w);
    }
    acc
}


/// Whether the directory entry at byte `off` of `img` is a directory.
pub open spec fn entry_is_dir(img: Seq<u8>, off: int) -> bool {
    img[off + 11] == 0x10
}

/// The first cluster of the entry at byte `off` of `img`.
pub open spec fn entry_cluster(img: Seq<u8>, off: int) -> u64 {
    (le16(img, off + 26) + le16(img, off + 20) * 65536) as u64
}

/// The command `command` names from the directory at `dc`: the entry found
/// for it, unless that is a directory named with a trailing path.
pub open spec fn command_in(img: Seq<u8>, command: Seq<char>, dc: u64) -> Option<int> {
    let (o, post_slash) = find_file_spec(img, command, dc);
    match o {
        Some(off) => if entry_is_dir(img, off) && post_slash { None } else { Some(off) },
        None => None,
    }
}

/// The first cluster of the root directory's `apps` directory, if there is one.
pub open spec fn apps_cluster(img: Seq<u8>) -> Option<u64> {
    match find_file_spec(img, seq!['a', 'p', 'p', 's'], root_cluster_of(img) as u64).0 {
        Some(a) => if entry_is_dir(img, a) { Some(entry_cluster(img, a)) } else { None },
        None => None,
    }
}

/// The entry that runs `command` from the directory at `dc`: found there,
/// or, from the root and for a name without a slash, in `apps`.
pub open spec fn find_command_spec(img: Seq<u8>, command: Seq<char>, dc: u64) -> Option<int> {
    if find_file_spec(img, command, dc).0 is Some {
        command_in(img, command, dc)
    } else if dc != root_cluster_of(img) as u64 || command.contains('/') {
        None
    } else {
        match apps_cluster(img) {
            Some(ac) => command_in(img, command, ac),
            None => None,
        }
    }
}

fn has_slash(s: &str) -> (b: bool)
    ensures
        b == s@.contains('/'),
{
    let n: usize = s.unicode_len();
    let mut i: usize = 0;
    while i < n
        invariant
            i <= n,
            n == s@.len(),
            forall|k: int| 0 <= k < i ==> s@[k] != '/',
        decreases n - i,
    {
        if s.get_char(i) == '/' {
            return true;
        }
        i = i + 1;
    }
    false
}

/// Looks up the file that runs `command` from the directory at
/// `dir_cluster`; from the root, a name without a slash is also looked up
/// in the `apps` directory.
pub fn find_command(bpb: &Bpb, command: &str, dir_cluster: u64) -> (r: Option<DirectoryEntry>)
    requires
        bpb.wf(),
        apps_cluster(bpb.bytes()) != Some(root_cluster_of(bpb.bytes()) as u64),
    ensures
        r is Some <==> find_command_spec(bpb.bytes(), command@, dir_cluster) is Some,
        r matches Some(e) ==> is_entry_at(e, bpb.bytes(), find_command_spec(bpb.bytes(), command@, dir_cluster)->0),
{
    let ghost img = bpb.bytes();
    if let (Some(file_entry), post_slash) = find_file(bpb, command, dir_cluster) {
        if file_entry.is_directory() && post_slash {
            return None;
        }
        return Some(file_entry);
    }
    let root_cluster: u64 = bpb.get_root_cluster() as u64;
    if dir_cluster != root_cluster || has_slash(command) {
        return None;
    }
    let apps: &str = "apps";
    proof {
        reveal_strlit("apps");
        assert(apps@ =~= seq!['a', 'p', 'p', 's']);
    }
    let apps_entry: DirectoryEntry = match find_file(bpb, apps, root_cluster).0 {
        None => {
            return None;
        },
        Some(e) => {
            if !e.is_directory() {
                return None;
            }
            e
        },
    };
    let ac: u64 = apps_entry.first_cluster() as u64;
    match find_file(bpb, command, ac) {
        (Some(file_entry), post_slash) => {
            if file_entry.is_directory() && post_slash {
                None
            } else {
                Some(file_entry)
            }
        },
        (None, _) => None,
    }
}


/// The built-in commands of the terminal; `Other` names a file to run.
#[derive(Copy, Clone, Debug, PartialEq, Eq, Structural)]
pub enum CommandKind {
    Echo,
    Clear,
    Lspci,
    Ls,
    Cat,
    Noterm,
    Memstat,
    Other,
}

/// The command that a first word names.
pub open spec fn command_kind_of(w: Seq<char>) -> CommandKind {
    if w == seq!['e', 'c', 'h', 'o'] {
        CommandKind::Echo
    } else if w == seq!['c', 'l', 'e', 'a', 'r'] {
        CommandKind::Clear
    } else if w == seq!['l', 's', 'p', 'c', 'i'] {
        CommandKind::Lspci
    } else if w == seq!['l', 's'] {
        CommandKind::Ls
    } else if w == seq!['c', 'a', 't'] {
        CommandKind::Cat
    } else if w == seq!['n', 'o', 't', 'e', 'r', 'm'] {
        CommandKind::Noterm
    } else if w == seq!['m', 'e', 'm', 's', 't', 'a', 't'] {
        CommandKind::Memstat
    } else {
        CommandKind::Other
    }
}

/// What a command line asks for, once split into words: the words of the
/// command itself, the file that output is redirected to (the word after
/// the first `>`, which ends the command), and the command line that
/// output is piped to (the words after the first `|`, which ends the
/// command).
pub open spec fn plan_of(words: Seq<Seq<char>>) -> (Seq<Seq<char>>, Option<Seq<char>>, Option<Seq<char>>) {
    let (w1, redirect) = match word_after_symbol(words, '>') {
        Some(i) => (words.take(i - 1), Some(words[i])),
        None => (words, None),
    };
    let (w2, pipe) = match word_after_symbol(w1, '|') {
        Some(j) => (w1.take(j - 1), Some(joined(' ', w1.skip(j)))),
        None => (w1, None),
    };
    (w2, redirect, pipe)
}

/// A command line taken apart, as `plan_of` says.
pub struct CommandPlan<'a> {
    pub argv: Vec<&'a str>,
    pub redirect_dest: Option<&'a str>,
    pub pipe_command: Option<String>,
    pub kind: CommandKind,
}

fn word_is(word: &str, lit: &str) -> (b: bool)
    ensures
        b == (word@ == lit@),
{
    let n: usize = word.unicode_len();
    if n != lit.unicode_len() {
        return false;
    }
    let mut i: usize = 0;
    while i < n
        invariant
            i <= n,
            n == word@.len(),
            n == lit@.len(),
            forall|k: int| 0 <= k < i ==> word@[k] == lit@[k],
        decreases n - i,
    {
        if word.get_char(i) != lit.get_char(i) {
            return false;
        }
        i = i + 1;
    }
    assert(word@ =~= lit@);
    true
}

fn kind_of_word(w: &str) -> (k: CommandKind)
    ensures
        k == command_kind_of(w@),
{
    proof {
        reveal_strlit("echo");
        reveal_strlit("clear");
        reveal_strlit("lspci");
        reveal_strlit("ls");
        reveal_strlit("cat");
        reveal_strlit("noterm");
        reveal_strlit("memstat");
        assert("echo"@ =~= seq!['e', 'c', 'h', 'o']);
        assert("clear"@ =~= seq!['c', 'l', 'e', 'a', 'r']);
        assert("lspci"@ =~= seq!['l', 's', 'p', 'c', 'i']);
        assert("ls"@ =~= seq!['l', 's']);
        assert("cat"@ =~= seq!['c', 'a', 't']);
        assert("noterm"@ =~= seq!['n', 'o', 't', 'e', 'r', 'm']);
        assert("memstat"@ =~= seq!['m', 'e', 'm', 's', 't', 'a', 't']);
    }
    if word_is(w, "echo") {
        CommandKind::Echo
    } else if word_is(w, "clear") {
        CommandKind::Clear
    } else if word_is(w, "lspci") {
        CommandKind::Lspci
    } else if word_is(w, "ls") {
        CommandKind::Ls
    } else if word_is(w, "cat") {
        CommandKind::Cat
    } else if word_is(w, "noterm") {
        CommandKind::Noterm
    } else if word_is(w, "memstat") {
        CommandKind::Memstat
    } else {
        CommandKind::Other
    }
}

fn prefix_of<'a>(v: &Vec<&'a str>, n: usize) -> (r: Vec<&'a str>)
    requires
        n <= v@.len(),
    ensures
        r@ == v@.take(n as int),
{
    let mut r: Vec<&'a str> = Vec::new();
    let mut i: usize = 0;
    while i < n
        invariant
            i <= n <= v@.len(),
            r@ == v@.take(i as int),
        decreases n - i,
    {
        r.push(v[i]);
        assert(r@ =~= v@.take(i + 1));
        i = i + 1;
    }
    r
}

/// Takes a command line apart as the terminal runs it; `None` when it
/// holds no word. The command's words may be empty (a line that starts
/// with `>` or `|`); its kind then is `Other`.
pub fn plan_command(line: &str) -> (r: Option<CommandPlan>)
    ensures
        words_from(line@, 0).len() == 0 ==> r is None,
        words_from(line@, 0).len() > 0 ==> (r matches Some(p) && {
            let (argv, redirect, pipe) = plan_of(words_from(line@, 0));
            &&& p.argv@.map_values(|t: &str| t@) == argv
            &&& (match p.redirect_dest {
                Some(d) => redirect == Some(d@),
                None => redirect is None,
            })
            &&& (match p.pipe_command {
                Some(c) => pipe == Some(c@),
                None => pipe is None,
            })
            &&& p.kind == if argv.len() > 0 { command_kind_of(argv[0]) } else { CommandKind::Other }
        }),
{
    let argv0: Vec<&str> = match parse_command(line) {
        None => {
            return None;
        },
        Some(v) => v,
    };
    let ghost words = words_from(line@, 0);
    let mut argv: Vec<&str> = argv0;
    proof {
        lemma_first_symbol_from(words, '>', 0);
    }
    let mut redirect_dest: Option<&str> = None;
    if let Some(i) = find_redirect_dest(argv.as_slice()) {
        redirect_dest = Some(argv[i]);
        argv = prefix_of(&argv, i - 1);
        proof {
            assert(argv@.map_values(|t: &str| t@) =~= words.take(i - 1));
        }
    }
    let ghost w1 = argv@.map_values(|t: &str| t@);
    proof {
        lemma_first_symbol_from(w1, '|', 0);
    }
    let mut pipe_command: Option<String> = None;
    if let Some(j) = find_pipe_dest(argv.as_slice()) {
        let tail: &[&str] = vstd::slice::slice_subrange(argv.as_slice(), j, argv.len());
        let sub: String = join_to_string(' ', tail);
        proof {
            assert(tail@.map_values(|t: &str| t@) =~= w1.skip(j as int));
        }
        pipe_command = Some(sub);
        argv = prefix_of(&argv, j - 1);
        proof {
            assert(argv@.map_values(|t: &str| t@) =~= w1.take(j - 1));
        }
    }
    let kind: CommandKind = if argv.len() > 0 {
        kind_of_word(argv[0])
    } else {
        CommandKind::Other
    };
    Some(CommandPlan { argv, redirect_dest, pipe_command, kind })
}


/// The longest line, in bytes, that the terminal takes.
pub const LINE_MAX: usize = 128;

/// The length in bytes of `s` (std's `String::len`), that is of its UTF-8
/// encoding.
#[verifier::external_body]
fn string_len(s: &String) -> (n: usize)
    ensures
        n == vstd::utf8::encode_utf8(s@).len(),
{
    s.len()
}

/// Removes and gives back the last character of `s` (std's `String::pop`).
#[verifier::external_body]
fn string_pop(s: &mut String) -> (c: Option<char>)
    ensures
        old(s)@.len() == 0 ==> c is None && final(s)@ == old(s)@,
        old(s)@.len() > 0 ==> c == Some(old(s)@.last()) && final(s)@ == old(s)@.drop_last(),
{
    s.pop()
}

/// What a key press asks of the task that runs the terminal: redraw an
/// area of the window, or run a command line (after which
/// `finish_command` shows the prompt again).
pub enum KeyResult {
    Redraw(Rectangle<i32>),
    Execute(String),
}

/// A terminal: the line being typed, the history of commands, and the exit
/// code of the last command; its text goes through a `TerminalWriter`.
pub struct Terminal {
    task_id: TaskID,
    layer_id: LayerID,
    line_buf: String,
    command_history: CommandHistory,
    last_exit_code: i32,
}

/// The key code of the down arrow.
pub const KEY_DOWN: u8 = 0x51;

/// The key code of the up arrow.
pub const KEY_UP: u8 = 0x52;

impl Terminal {
    pub closed spec fn spec_task_id(&self) -> TaskID {
        self.task_id
    }

    pub closed spec fn spec_layer_id(&self) -> LayerID {
        self.layer_id
    }

    /// The line being typed.
    pub closed spec fn line(&self) -> Seq<char> {
        self.line_buf@
    }

    pub closed spec fn history(&self) -> CommandHistory {
        self.command_history
    }

    pub closed spec fn spec_last_exit_code(&self) -> i32 {
        self.last_exit_code
    }

    pub open spec fn wf(&self) -> bool {
        self.history().wf()
    }

    /// A terminal of task `task_id` with no window yet, an empty line and
    /// history, and an exit code of 0.
    pub fn new(task_id: TaskID) -> (t: Terminal)
        ensures
            t.wf(),
            t.spec_task_id() == task_id,
            t.spec_layer_id().0 == u32::MAX,
            t.line() == Seq::<char>::empty(),
            t.history().entries() == Seq::<Seq<char>>::empty(),
            t.history().pointing() is None,
            t.spec_last_exit_code() == 0,
    {
        Terminal {
            task_id,
            layer_id: LayerID::max(),
            line_buf: String::new(),
            command_history: CommandHistory::new(),
            last_exit_code: 0,
        }
    }

    pub fn layer_id(&self) -> (id: LayerID)
        ensures
            id == self.spec_layer_id(),
    {
        self.layer_id
    }

    pub fn task_id(&self) -> (id: TaskID)
        ensures
            id == self.spec_task_id(),
    {
        self.task_id
    }

    /// Records the layer that shows the terminal's window.
    pub fn set_layer_id(&mut self, layer_id: LayerID)
        ensures
            final(self).spec_layer_id() == layer_id,
            final(self).spec_task_id() == old(self).spec_task_id(),
            final(self).line() == old(self).line(),
            final(self).history() == old(self).history(),
            final(self).spec_last_exit_code() == old(self).spec_last_exit_code(),
    {
        self.layer_id = layer_id;
    }

    pub fn last_exit_code(&self) -> (c: i32)
        ensures
            c == self.spec_last_exit_code(),
    {
        self.last_exit_code
    }

    /// Records the exit code of the command just run.
    pub fn set_last_exit_code(&mut self, code: i32)
        ensures
            final(self).spec_last_exit_code() == code,
            final(self).spec_layer_id() == old(self).spec_layer_id(),
            final(self).spec_task_id() == old(self).spec_task_id(),
            final(self).line() == old(self).line(),
            final(self).history() == old(self).history(),
    {
        self.last_exit_code = code;
    }

    /// The history entry that a history key shows next: `KEY_UP` an
    /// older one, `KEY_DOWN` a newer one.
    pub open spec fn history_target(&self, keycode: u8) -> Seq<char> {
        if keycode == KEY_UP {
            CommandHistory::shown(
                self.history().entries(),
                CommandHistory::up_index(self.history().pointing(), self.history().entries().len()),
            )
        } else {
            CommandHistory::shown(self.history().entries(), CommandHistory::down_index(self.history().pointing()))
        }
    }

    /// The history line that an arrow key shows, drawn on the cursor's row
    /// `cy` over `col`: the row from the second cell on is cleared and the
    /// line's characters are drawn from there.
    pub open spec fn history_colors(col: spec_fn(int, int) -> PixelColor, font: Seq<u8>, e: Seq<char>, cy: int) -> spec_fn(
        int,
        int,
    ) -> PixelColor {
        |a: int, b: int|
            if text_covers(font, e, 16, 28 + 16 * cy, a, b, e.len() as int) {
                color_white()
            } else if in_rect(
                Vector2D { x: 16i32, y: (28 + 16 * cy) as i32 },
                Vector2D { x: (8 * (COLUMNS - 1)) as i32, y: 16i32 },
                a,
                b,
            ) {
                color_black()
            } else {
                col(a, b)
            }
    }

    /// The colors of the terminal's window `w` after a press of `ascii`
    /// (key code `keycode`) with the cursor at `c` (see `input_key`): the
    /// cursor is hidden; a line feed starts a new line; a backspace clears
    /// the cell before the cursor; an arrow key shows a history line; a
    /// character that the line takes is drawn at the cursor; then, except
    /// after a line feed, the cursor is shown where it stands.
    pub open spec fn key_colors(&self, w: Window, font: Seq<u8>, keycode: u8, ascii: char, c: Vector2D<i32>) -> spec_fn(
        int,
        int,
    ) -> PixelColor {
        let hidden = cursor_colors(colors_of(w), c, false);
        if ascii == '\n' {
            new_line_colors(hidden, c.y as int)
        } else if ascii == '\x08' {
            if self.line().len() == 0 {
                cursor_colors(hidden, c, true)
            } else {
                let c1 = Vector2D { x: (c.x - 1) as i32, y: c.y };
                cursor_colors(
                    |a: int, b: int|
                        if in_rect(cursor_pixel(c1), Vector2D { x: 8i32, y: 16i32 }, a, b) {
                            color_black()
                        } else {
                            hidden(a, b)
                        },
                    c1,
                    true,
                )
            }
        } else if ascii == '\0' {
            if keycode == KEY_UP || keycode == KEY_DOWN {
                let e = self.history_target(keycode);
                cursor_colors(
                    Self::history_colors(hidden, font, e, c.y as int),
                    Vector2D { x: (vstd::utf8::encode_utf8(e).len() + 1) as i32, y: c.y },
                    true,
                )
            } else {
                cursor_colors(hidden, c, true)
            }
        } else if c.x < COLUMNS - 1 && vstd::utf8::encode_utf8(self.line()).len() < LINE_MAX {
            let p = cursor_pixel(c);
            cursor_colors(
                |a: int, b: int|
                    if glyph_covers(font, ascii, p.x as int, p.y as int, a, b) {
                        color_white()
                    } else {
                        hidden(a, b)
                    },
                Vector2D { x: (c.x + 1) as i32, y: c.y },
                true,
            )
        } else {
            cursor_colors(hidden, c, true)
        }
    }

    /// Whether the terminal can handle a press of `ascii` (key code
    /// `keycode`) with `writer` drawing into the window of `lm`'s layer:
    /// the cursor is on the grid, the character before it is on the grid
    /// when one is erased, and a history entry to show fits on the line.
    pub open spec fn key_ok(&self, keycode: u8, ascii: char, writer: TerminalWriter, lm: LayerManager, font: Seq<u8>) -> bool {
        &&& self.wf()
        &&& lm.wf()
        &&& cursor_ok(writer.spec_cursor())
        &&& writer.window_ok(lm)
        &&& (ascii == '\x08' && self.line().len() > 0 ==> writer.spec_cursor().x >= 0)
        &&& (ascii == '\0' && (keycode == KEY_UP || keycode == KEY_DOWN)) ==> {
            let e = self.history_target(keycode);
            &&& vstd::utf8::encode_utf8(e).len() + 1 <= COLUMNS
            &&& lm.layer(writer.spec_layer_id()) matches Some(l) ==> text_fits(
                font,
                e,
                16,
                28 + 16 * writer.spec_cursor().y,
                raw_area(l.spec_window()),
            )
        }
    }

    /// Handles a key press: a line feed records the line in the history,
    /// moves to a new line and asks to run it; a backspace erases the last
    /// character; the up and down arrows bring back a command of the
    /// history; any other character is added when the line has room. The
    /// cursor is hidden meanwhile and shown again, except after a line feed.
    pub fn input_key(
        &mut self,
        modifier: u8,
        keycode: u8,
        ascii: char,
        writer: &mut TerminalWriter,
        lm: &mut LayerManager,
        font: &[u8],
    ) -> (r: KeyResult)
        requires
            old(self).key_ok(keycode, ascii, *old(writer), *old(lm), font@),
        ensures
            final(self).wf(),
            final(self).spec_task_id() == old(self).spec_task_id(),
            final(self).spec_layer_id() == old(self).spec_layer_id(),
            final(self).spec_last_exit_code() == old(self).spec_last_exit_code(),
            final(writer).spec_layer_id() == old(writer).spec_layer_id(),
            final(writer).spec_task_id() == old(writer).spec_task_id(),
            final(writer).spec_cursor_visible() == old(writer).spec_cursor_visible(),
            window_redrawn(
                *old(lm),
                *final(lm),
                old(writer).spec_layer_id(),
                |w: Window, a: int, b: int| old(self).key_colors(w, font@, keycode, ascii, old(writer).spec_cursor())(a, b),
            ),
            ascii == '\n' ==> {
                &&& r matches KeyResult::Execute(line) && line@ == old(self).line()
                &&& final(self).line() == Seq::<char>::empty()
                &&& final(self).history().pointing() is None
                &&& final(self).history().entries() == if old(self).line().len() == 0 {
                    old(self).history().entries()
                } else if old(self).history().entries().len() < 8 {
                    seq![old(self).line()] + old(self).history().entries()
                } else {
                    seq![old(self).line()] + old(self).history().entries().take(7)
                }
                &&& final(writer).spec_cursor() == new_line_cursor(old(writer).spec_cursor())
            },
            ascii == '\x08' ==> {
                &&& final(self).history() == old(self).history()
                &&& old(self).line().len() == 0 ==> {
                    &&& final(self).line() == old(self).line()
                    &&& final(writer).spec_cursor() == old(writer).spec_cursor()
                    &&& r matches KeyResult::Redraw(a) && a == (Rectangle {
                        pos: cursor_pixel(old(writer).spec_cursor()),
                        size: Vector2D { x: 16i32, y: 16i32 },
                    })
                }
                &&& old(self).line().len() > 0 ==> {
                    &&& final(self).line() == old(self).line().drop_last()
                    &&& final(writer).spec_cursor() == (Vector2D {
                        x: (old(writer).spec_cursor().x - 1) as i32,
                        y: old(writer).spec_cursor().y,
                    })
                    &&& r matches KeyResult::Redraw(a) && a == (Rectangle {
                        pos: cursor_pixel(final(writer).spec_cursor()),
                        size: Vector2D { x: 16i32, y: 16i32 },
                    })
                }
            },
            ascii == '\0' && (keycode == KEY_UP || keycode == KEY_DOWN) ==> {
                &&& final(self).line() == old(self).history_target(keycode)
                &&& final(self).history().entries() == old(self).history().entries()
                &&& final(self).history().pointing() == if keycode == KEY_UP {
                    CommandHistory::up_index(old(self).history().pointing(), old(self).history().entries().len())
                } else {
                    CommandHistory::down_index(old(self).history().pointing())
                }
                &&& final(writer).spec_cursor() == (Vector2D {
                    x: (vstd::utf8::encode_utf8(old(self).history_target(keycode)).len() + 1) as i32,
                    y: old(writer).spec_cursor().y,
                })
                &&& r matches KeyResult::Redraw(a) && a == (Rectangle {
                    pos: Vector2D { x: 16i32, y: (28 + 16 * old(writer).spec_cursor().y) as i32 },
                    size: Vector2D { x: (8 * (COLUMNS - 1)) as i32, y: 16i32 },
                })
            },
            ascii == '\0' && keycode != KEY_UP && keycode != KEY_DOWN ==> {
                &&& final(self).line() == old(self).line()
                &&& final(self).history() == old(self).history()
                &&& final(writer).spec_cursor() == old(writer).spec_cursor()
                &&& r matches KeyResult::Redraw(a) && a == (Rectangle {
                    pos: cursor_pixel(old(writer).spec_cursor()),
                    size: Vector2D { x: 16i32, y: 16i32 },
                })
            },
            ascii != '\n' && ascii != '\x08' && ascii != '\0' ==> {
                let takes = old(writer).spec_cursor().x < COLUMNS - 1 && vstd::utf8::encode_utf8(old(self).line()).len()
                    < LINE_MAX;
                &&& final(self).history() == old(self).history()
                &&& final(self).line() == if takes { old(self).line().push(ascii) } else { old(self).line() }
                &&& final(writer).spec_cursor() == if takes {
                    Vector2D { x: (old(writer).spec_cursor().x + 1) as i32, y: old(writer).spec_cursor().y }
                } else {
                    old(writer).spec_cursor()
                }
                &&& r matches KeyResult::Redraw(a) && a == (Rectangle {
                    pos: cursor_pixel(old(writer).spec_cursor()),
                    size: Vector2D { x: 16i32, y: 16i32 },
                })
            },
    {
        let ghost lm0 = *lm;
        let ghost t0 = *self;
        let ghost c0 = writer.spec_cursor();
        let ghost id = writer.spec_layer_id();
        let ghost hidden = cursor_colors(colors_of(lm0.layer(id)->0.spec_window()), c0, false);
        writer.draw_cursor(false, lm);
        let ghost lm1 = *lm;
        proof {
            if lm0.layer(id) is Some {
                assert(colors_of(lm1.layer(id)->0.spec_window()) =~= hidden);
            }
        }
        let mut draw_area: Rectangle<i32> = Rectangle::new(writer.calc_cursor_pos(), Vector2D::new(16, 16));
        if ascii == '\n' {
            let mut line: String = String::new();
            core::mem::swap(&mut line, &mut self.line_buf);
            let copy: String = line.clone();
            self.command_history.push(copy);
            writer.new_line(lm);
            proof {
                crate::terminal_writer::lemma_window_kept_trans(lm0, lm1, *lm, id);
                if lm0.layer(id) is Some {
                    let w1 = lm1.layer(id)->0.spec_window();
                    assert forall|a: int, b: int| #[trigger] lm.layer(id)->0.spec_window().color(a, b) == t0.key_colors(
                        lm0.layer(id)->0.spec_window(),
                        font@,
                        keycode,
                        ascii,
                        c0,
                    )(a, b) by {
                        assert(colors_of(w1)(a, b) == w1.color(a, b));
                        assert(colors_of(w1)(a, b + 16) == w1.color(a, b + 16));
                    }
                }
            }
            return KeyResult::Execute(line);
        }
        if ascii == '\x08' {
            if string_pop(&mut self.line_buf).is_some() {
                writer.back_space(lm);
                draw_area = Rectangle::new(writer.calc_cursor_pos(), draw_area.size);
            }
        } else if ascii == '\0' {
            if keycode == KEY_DOWN {
                draw_area = self.history_up_down(Direction::Down, writer, lm, font);
            } else if keycode == KEY_UP {
                draw_area = self.history_up_down(Direction::Up, writer, lm, font);
            }
        } else {
            if writer.can_write_on_this_line() && string_len(&self.line_buf) < LINE_MAX {
                push_char(&mut self.line_buf, ascii);
                writer.input_ascii(ascii, lm, font);
            }
        }
        let ghost lm2 = *lm;
        let ghost c2 = writer.spec_cursor();
        proof {
            crate::terminal_writer::lemma_window_kept_trans(lm0, lm1, lm2, id);
        }
        writer.draw_cursor(true, lm);
        proof {
            crate::terminal_writer::lemma_window_kept_trans(lm0, lm2, *lm, id);
            if lm0.layer(id) is Some {
                let w1 = lm1.layer(id)->0.spec_window();
                let w2 = lm2.layer(id)->0.spec_window();
                let mid = if ascii == '\x08' {
                    if t0.line().len() == 0 {
                        hidden
                    } else {
                        |a: int, b: int|
                            if in_rect(cursor_pixel(c2), Vector2D { x: 8i32, y: 16i32 }, a, b) {
                                color_black()
                            } else {
                                hidden(a, b)
                            }
                    }
                } else if ascii == '\0' {
                    if keycode == KEY_UP || keycode == KEY_DOWN {
                        Self::history_colors(hidden, font@, t0.history_target(keycode), c0.y as int)
                    } else {
                        hidden
                    }
                } else if c0.x < COLUMNS - 1 && vstd::utf8::encode_utf8(t0.line()).len() < LINE_MAX {
                    let p = cursor_pixel(c0);
                    |a: int, b: int|
                        if glyph_covers(font@, ascii, p.x as int, p.y as int, a, b) {
                            color_white()
                        } else {
                            hidden(a, b)
                        }
                } else {
                    hidden
                };
                assert forall|a: int, b: int| #[trigger] w2.color(a, b) == mid(a, b) by {
                    assert(colors_of(w1)(a, b) == w1.color(a, b));
                }
                assert(t0.key_colors(lm0.layer(id)->0.spec_window(), font@, keycode, ascii, c0) == cursor_colors(mid, c2, true));
                assert forall|a: int, b: int| #[trigger] lm.layer(id)->0.spec_window().color(a, b) == t0.key_colors(
                    lm0.layer(id)->0.spec_window(),
                    font@,
                    keycode,
                    ascii,
                    c0,
                )(a, b) by {
                    assert(w2.color(a, b) == mid(a, b));
                }
            }
        }
        KeyResult::Redraw(draw_area)
    }

    /// Shows the command of the history that `direction` leads to on the
    /// cursor's line and makes it the line being typed.
    fn history_up_down(
        &mut self,
        direction: Direction,
        writer: &mut TerminalWriter,
        lm: &mut LayerManager,
        font: &[u8],
    ) -> (r: Rectangle<i32>)
        requires
            old(self).wf(),
            old(lm).wf(),
            cursor_ok(old(writer).spec_cursor()),
            old(writer).window_ok(*old(lm)),
            ({
                let e = old(self).history_target(match direction {
                    Direction::Up => KEY_UP,
                    Direction::Down => KEY_DOWN,
                });
                &&& vstd::utf8::encode_utf8(e).len() + 1 <= COLUMNS
                &&& old(lm).layer(old(writer).spec_layer_id()) matches Some(l) ==> text_fits(
                    font@,
                    e,
                    16,
                    28 + 16 * old(writer).spec_cursor().y,
                    raw_area(l.spec_window()),
                )
            }),
        ensures
            ({
                let k = match direction {
                    Direction::Up => KEY_UP,
                    Direction::Down => KEY_DOWN,
                };
                &&& final(self).wf()
                &&& final(self).line() == old(self).history_target(k)
                &&& final(self).history().entries() == old(self).history().entries()
                &&& final(self).history().pointing() == if k == KEY_UP {
                    CommandHistory::up_index(old(self).history().pointing(), old(self).history().entries().len())
                } else {
                    CommandHistory::down_index(old(self).history().pointing())
                }
                &&& final(self).spec_task_id() == old(self).spec_task_id()
                &&& final(self).spec_layer_id() == old(self).spec_layer_id()
                &&& final(self).spec_last_exit_code() == old(self).spec_last_exit_code()
                &&& final(writer).spec_cursor() == (Vector2D {
                    x: (vstd::utf8::encode_utf8(old(self).history_target(k)).len() + 1) as i32,
                    y: old(writer).spec_cursor().y,
                })
                &&& final(writer).spec_layer_id() == old(writer).spec_layer_id()
                &&& final(writer).spec_task_id() == old(writer).spec_task_id()
                &&& final(writer).spec_cursor_visible() == old(writer).spec_cursor_visible()
                &&& window_redrawn(
                    *old(lm),
                    *final(lm),
                    old(writer).spec_layer_id(),
                    |w: Window, a: int, b: int| Self::history_colors(
                        colors_of(w),
                        font@,
                        old(self).history_target(k),
                        old(writer).spec_cursor().y as int,
                    )(a, b),
                )
                &&& r == (Rectangle {
                    pos: Vector2D { x: 16i32, y: (28 + 16 * old(writer).spec_cursor().y) as i32 },
                    size: Vector2D { x: (8 * (COLUMNS - 1)) as i32, y: 16i32 },
                })
            }),
    {
        let shown: String = match direction {
            Direction::Up => self.command_history.up().to_owned(),
            Direction::Down => self.command_history.down().to_owned(),
        };
        self.line_buf = shown;
        let line: &str = self.line_buf.as_str();
        writer.history_up_down(line, lm, font)
    }

    /// After a command ran: shows the prompt and the cursor again and gives
    /// back the area to redraw, the whole inner area of the window.
    pub fn finish_command(&mut self, writer: &mut TerminalWriter, lm: &mut LayerManager, font: &[u8], tm: &mut TaskManager) -> (r: Rectangle<i32>)
        requires
            old(lm).wf(),
            old(tm).wf(),
            old(tm).spec_main_task_id().0 < old(tm).task_list().len(),
            cursor_ok(old(writer).spec_cursor()),
            old(writer).window_ok(*old(lm)),
        ensures
            *final(self) == *old(self),
            final(writer).spec_layer_id() == old(writer).spec_layer_id(),
            final(writer).spec_task_id() == old(writer).spec_task_id(),
            final(writer).spec_cursor_visible() == old(writer).spec_cursor_visible(),
            final(writer).spec_cursor() == if old(lm).layer(old(writer).spec_layer_id()) is Some {
                print_cursor(old(writer).spec_cursor(), seq!['>'])
            } else {
                old(writer).spec_cursor()
            },
            window_redrawn(
                *old(lm),
                *final(lm),
                old(writer).spec_layer_id(),
                |w: Window, a: int, b: int| printed_colors(w, font@, old(writer).spec_cursor(), seq!['>'])(a, b),
            ),
            old(tm).message_sent(
                *final(tm),
                old(tm).spec_main_task_id(),
                print_area_message(*old(writer), *old(lm), final(writer).spec_cursor()),
            ),
            r.pos == (Vector2D { x: TOP_LEFT_X, y: TOP_LEFT_Y }),
            r.size == match old(lm).layer(old(writer).spec_layer_id()) {
                Some(l) => Vector2D {
                    x: (l.spec_window().spec_width() - 8) as i32,
                    y: (l.spec_window().spec_height() - 28) as i32,
                },
                None => Vector2D { x: -8i32, y: -28i32 },
            },
    {
        let prompt: &str = ">";
        proof {
            reveal_strlit(">");
            assert(prompt@ =~= seq!['>']);
            let c = writer.spec_cursor();
            assert(prompt@.drop_first() =~= Seq::<char>::empty());
            assert(crate::terminal_writer::printable(crate::terminal_writer::print_char_cursor(c, '>'), prompt@.drop_first()));
            assert(crate::terminal_writer::printable(c, prompt@));
        }
        let ghost lm0 = *lm;
        let ghost c0 = writer.spec_cursor();
        writer.print(prompt, lm, font, tm);
        let ghost lm1 = *lm;
        writer.draw_cursor(true, lm);
        proof {
            let id = writer.spec_layer_id();
            crate::terminal_writer::lemma_window_kept_trans(lm0, lm1, *lm, id);
            if lm0.layer(id) is Some {
                let w0 = lm0.layer(id)->0.spec_window();
                let w1 = lm1.layer(id)->0.spec_window();
                assert forall|a: int, b: int| #[trigger] lm.layer(id)->0.spec_window().color(a, b) == printed_colors(
                    w0,
                    font@,
                    c0,
                    seq!['>'],
                )(a, b) by {
                    assert(w1.color(a, b) == printed_colors(w0, font@, c0, prompt@)(a, b));
                }
            }
        }
        let size: Vector2D<i32> = match lm.get_layer(writer.layer_id()) {
            Some(l) => {
                proof {
                    lm.lemma_layer_wf(writer.spec_layer_id());
                }
                l.get_window_ref().inner_size()
            },
            None => Vector2D::new(-8, -28),
        };
        Rectangle::new(Vector2D::new(TOP_LEFT_X, TOP_LEFT_Y), size)
    }
}

} // verus!

verus! {

/// The names that listing the entries `k..n` of the directory cluster at
/// byte `base` shows: each entry in use that is no part of a long name, as
/// `BASE.EXT` up to its first zero byte. An entry whose name starts with 0
/// ends the listing of the cluster.
pub open spec fn names_in_cluster(img: Seq<u8>, base: int, k: nat, n: nat) -> Seq<Seq<u8>>
    decreases n - k,
{
    if k >= n {
        Seq::empty()
    } else if img[base + 32 * k] == 0 {
        Seq::empty()
    } else if img[base + 32 * k] == 0xe5 || img[base + 32 * k + 11] == 0x0f {
        names_in_cluster(img, base, k + 1, n)
    } else {
        seq![before_nul(formatted_name_of(img.subrange(base + 32 * k, base + 32 * k + 11)))]
            + names_in_cluster(img, base, k + 1, n)
    }
}

/// The names that listing the directory whose chain starts at `cluster`
/// shows, cluster after cluster, following at most `fuel` links; the walk
/// stops at the end mark and at a cluster whose data lies outside the image.
pub open spec fn dir_listing(img: Seq<u8>, cluster: u64, fuel: nat) -> Seq<Seq<u8>>
    decreases fuel,
{
    if fuel == 0 || cluster == END_OF_CLUSTER_CHAIN || !cluster_in_image(img, cluster as int) {
        Seq::empty()
    } else {
        names_in_cluster(img, cluster_offset_of(img, cluster as int), 0, (bytes_per_cluster_of(img) / 32) as nat)
            + dir_listing(img, next_cluster_of(img, cluster as int), (fuel - 1) as nat)
    }
}

/// The contents of a list of byte strings.
pub open spec fn byte_strings(v: Seq<Vec<u8>>) -> Seq<Seq<u8>> {
    v.map_values(|b: Vec<u8>| b@)
}

/// The bytes of `buf` before its first zero byte.
pub fn bytes_before_nul(buf: &[u8]) -> (r: Vec<u8>)
    ensures
        r@ == before_nul(buf@),
{
    let n: usize = buf.len();
    let mut r: Vec<u8> = Vec::new();
    let mut i: usize = 0;
    proof {
        lemma_first_zero_from(buf@, 0);
    }
    while i < n && buf[i] != 0
        invariant
            i <= n,
            n == buf@.len(),
            first_zero_from(buf@, i as nat) == first_zero_from(buf@, 0),
            r@ == buf@.take(i as int),
        decreases n - i,
    {
        proof {
            lemma_first_zero_from(buf@, i as nat);
        }
        r.push(buf[i]);
        i += 1;
        assert(r@ =~= buf@.take(i as int));
    }
    proof {
        lemma_first_zero_from(buf@, i as nat);
    }
    r
}

/// Appends to `names` what listing the directory cluster at byte `base`
/// shows.
fn names_of_cluster(bpb: &Bpb, base: usize, names: &mut Vec<Vec<u8>>)
    requires
        bpb.wf(),
        base + bytes_per_cluster_of(bpb.bytes()) <= bpb.bytes().len(),
        0 <= bytes_per_cluster_of(bpb.bytes()),
    ensures
        byte_strings(final(names)@) == byte_strings(old(names)@) + names_in_cluster(
            bpb.bytes(),
            base as int,
            0,
            (bytes_per_cluster_of(bpb.bytes()) / 32) as nat,
        ),
{
    let ghost img = bpb.bytes();
    let ghost n0 = byte_strings(names@);
    let n: usize = (bpb.bytes_per_cluster() / 32) as usize;
    let total: usize = bpb.image().len();
    let mut k: usize = 0;
    let mut done: bool = false;
    while k < n && !done
        invariant
            bpb.wf(),
            img == bpb.bytes(),
            total == img.len(),
            k <= n,
            n == bytes_per_cluster_of(img) / 32,
            0 <= bytes_per_cluster_of(img),
            base + bytes_per_cluster_of(img) <= img.len(),
            n0 == byte_strings(old(names)@),
            done ==> names_in_cluster(img, base as int, k as nat, n as nat) == Seq::<Seq<u8>>::empty(),
            byte_strings(names@) + names_in_cluster(img, base as int, k as nat, n as nat) == n0
                + names_in_cluster(img, base as int, 0, n as nat),
        decreases n - k + if done { 0int } else { 1int },
    {
        proof {
            lemma_entry_in_cluster(bytes_per_cluster_of(img), k as int);
        }
        let off: usize = base + 32 * k;
        let e: DirectoryEntry = bpb.entry_at(off);
        assert(e.name@[0] == img[base + 32 * k]);
        assert(e.attr == img[base + 32 * k + 11]);
        if e.is_free_and_no_more_allocated_after_this() {
            assert(img[base + 32 * (k as nat)] == 0);
            done = true;
        } else if e.is_free() || e.attr == 0x0f {
            k += 1;
        } else {
            assert(e.name@ =~= img.subrange(base + 32 * k, base + 32 * k + 11));
            let name: [u8; 12] = e.formatted_name();
            let b: Vec<u8> = bytes_before_nul(&name);
            let ghost before = names@;
            names.push(b);
            assert(byte_strings(names@) =~= byte_strings(before) + seq![b@]);
            k += 1;
        }
    }
    assert(names_in_cluster(img, base as int, k as nat, n as nat) =~= Seq::<Seq<u8>>::empty());
    assert(byte_strings(names@) =~= byte_strings(names@) + Seq::<Seq<u8>>::empty());
}

/// The names that `ls` shows for the directory whose chain starts at
/// `dir_cluster`, one per line, in the order of the entries on the volume.
pub fn list_all_entries(bpb: &Bpb, dir_cluster: u64) -> (names: Vec<Vec<u8>>)
    requires
        bpb.wf(),
    ensures
        byte_strings(names@) == dir_listing(bpb.bytes(), dir_cluster, bpb.bytes().len()),
{
    let ghost img = bpb.bytes();
    let mut names: Vec<Vec<u8>> = Vec::new();
    let mut cluster: u64 = dir_cluster;
    let mut fuel: usize = bpb.image().len();
    assert(byte_strings(names@) =~= Seq::<Seq<u8>>::empty());
    while fuel > 0 && cluster != END_OF_CLUSTER_CHAIN
        invariant
            bpb.wf(),
            img == bpb.bytes(),
            fuel <= img.len(),
            byte_strings(names@) + dir_listing(img, cluster, fuel as nat) == dir_listing(
                img,
                dir_cluster,
                img.len(),
            ),
        decreases fuel,
    {
        match bpb.get_cluster_addr(cluster) {
            None => {
                assert(byte_strings(names@) =~= byte_strings(names@) + Seq::<Seq<u8>>::empty());
                return names;
            },
            Some(base) => {
                proof {
                    lemma_cluster_data_len(img, cluster as int);
                }
                let ghost before = byte_strings(names@);
                names_of_cluster(bpb, base, &mut names);
                assert(before + dir_listing(img, cluster, fuel as nat) =~= byte_strings(names@)
                    + dir_listing(img, next_cluster_of(img, cluster as int), (fuel - 1) as nat));
                cluster = bpb.next_cluster(cluster);
                fuel = fuel - 1;
            },
        }
    }
    assert(byte_strings(names@) =~= byte_strings(names@) + Seq::<Seq<u8>>::empty());
    names
}


/// What `ls` prints.
pub enum LsOutput {
    /// These names, one per line, on the standard output.
    Names(Vec<Vec<u8>>),
    /// "No such file or directory: " and the argument, on the standard error.
    NoSuchFile,
    /// This name and " is not a directory", on the standard error.
    NotADirectory(Vec<u8>),
    /// This name, on the standard output.
    FileName(Vec<u8>),
}

/// The name of the entry at byte `off` as `ls` and `cat` print it.
pub open spec fn entry_name(img: Seq<u8>, off: int) -> Seq<u8> {
    before_nul(formatted_name_of(img.subrange(off, off + 11)))
}

/// `ls`: without an argument the root directory is listed (exit code 0);
/// with one, the entry it names is looked up from the root: a directory is
/// listed (exit code 1), a file's name printed (0), or an error printed (1).
pub fn execute_ls(bpb: &Bpb, argv: &[&str]) -> (r: (LsOutput, i32))
    requires
        bpb.wf(),
    ensures
        ({
            let img = bpb.bytes();
            let root = root_cluster_of(img) as u64;
            if argv@.len() < 2 {
                &&& r.1 == 0
                &&& r.0 matches LsOutput::Names(v) && byte_strings(v@) == dir_listing(img, root, img.len())
            } else {
                let (o, post_slash) = find_file_spec(img, argv@[1]@, root);
                match o {
                    None => r.0 is NoSuchFile && r.1 == 1,
                    Some(off) => if entry_is_dir(img, off) {
                        &&& r.1 == 1
                        &&& r.0 matches LsOutput::Names(v) && byte_strings(v@) == dir_listing(
                            img,
                            entry_cluster(img, off),
                            img.len(),
                        )
                    } else if post_slash {
                        r.1 == 1 && (r.0 matches LsOutput::NotADirectory(n) && n@ == entry_name(img, off))
                    } else {
                        r.1 == 0 && (r.0 matches LsOutput::FileName(n) && n@ == entry_name(img, off))
                    },
                }
            }
        }),
{
    let ghost img = bpb.bytes();
    let root_cluster: u32 = bpb.get_root_cluster();
    if argv.len() < 2 {
        return (LsOutput::Names(list_all_entries(bpb, root_cluster as u64)), 0);
    }
    let first_arg: &str = argv[1];
    let (dir, post_slash) = find_file(bpb, first_arg, root_cluster as u64);
    match dir {
        None => (LsOutput::NoSuchFile, 1),
        Some(dir) => {
            if dir.is_directory() {
                return (LsOutput::Names(list_all_entries(bpb, dir.first_cluster() as u64)), 1);
            }
            let name_bytes: [u8; 12] = dir.formatted_name();
            let name: Vec<u8> = bytes_before_nul(&name_bytes);
            if post_slash {
                (LsOutput::NotADirectory(name), 1)
            } else {
                (LsOutput::FileName(name), 0)
            }
        },
    }
}

/// What `cat` prints.
pub enum CatOutput {
    /// What the terminal's standard input gives, on the standard output.
    StandardInput,
    /// "no such file: " and the argument, on the standard error.
    NoSuchFile,
    /// This name and " is not a directory", on the standard error.
    NotADirectory(Vec<u8>),
    /// The file's contents, on the standard output.
    Contents(Vec<u8>),
}

/// The contents of the file whose entry is at byte `off`: as many bytes as
/// its size says, taken from its cluster chain, zeros where the chain ends
/// before.
pub open spec fn file_contents(img: Seq<u8>, off: int) -> Seq<u8> {
    let size = le32(img, off + 28);
    let data = chain_data(img, entry_cluster(img, off), img.len());
    let n = copied_len(size, data);
    data.take(n) + Seq::new((size - n) as nat, |i: int| 0u8)
}

/// `cat`: without an argument it copies the standard input; with one, the
/// file it names (looked up from the root) is printed, or an error when
/// there is none or a file was named with a trailing path. The exit code
/// is 1 on an error, else 0.
pub fn execute_cat(bpb: &Bpb, argv: &[&str]) -> (r: (CatOutput, i32))
    requires
        bpb.wf(),
    ensures
        ({
            let img = bpb.bytes();
            if argv@.len() < 2 {
                r.0 is StandardInput && r.1 == 0
            } else {
                let (o, post_slash) = find_file_spec(img, argv@[1]@, root_cluster_of(img) as u64);
                match o {
                    None => r.0 is NoSuchFile && r.1 == 1,
                    Some(off) => if !entry_is_dir(img, off) && post_slash {
                        r.1 == 1 && (r.0 matches CatOutput::NotADirectory(n) && n@ == entry_name(img, off))
                    } else {
                        r.1 == 0 && (r.0 matches CatOutput::Contents(c) && c@ == file_contents(img, off))
                    },
                }
            }
        }),
{
    let ghost img = bpb.bytes();
    if argv.len() < 2 {
        return (CatOutput::StandardInput, 0);
    }
    let first_arg: &str = argv[1];
    let (file_entry, post_slash) = find_file(bpb, first_arg, bpb.get_root_cluster() as u64);
    match file_entry {
        None => (CatOutput::NoSuchFile, 1),
        Some(e) => {
            if !e.is_directory() && post_slash {
                let name_bytes: [u8; 12] = e.formatted_name();
                return (CatOutput::NotADirectory(bytes_before_nul(&name_bytes)), 1);
            }
            let size: usize = e.file_size() as usize;
            let mut buf: Vec<u8> = vec![0u8; size];
            let ghost b0 = buf@;
            e.load_file(buf.as_mut_slice(), bpb);
            proof {
                let data = chain_data(img, entry_cluster(img, find_file_spec(img, argv@[1]@, root_cluster_of(img) as u64).0->0), img.len());
                let n = copied_len(size as int, data);
                assert(b0.skip(n) =~= Seq::new((size - n) as nat, |i: int| 0u8));
            }
            (CatOutput::Contents(buf), 0)
        },
    }
}

/// The text of the number `v` in decimal, with a minus sign when it is
/// negative.
pub open spec fn int_text(v: int) -> Seq<char> {
    if v < 0 {
        seq!['-'] + crate::fat::decimal((-v) as nat)
    } else {
        crate::fat::decimal(v as nat)
    }
}

fn push_decimal(s: &mut String, v: u64)
    ensures
        final(s)@ == old(s)@ + crate::fat::decimal(v as nat),
    decreases v,
{
    if v >= 10 {
        push_decimal(s, v / 10);
    }
    push_char(s, ((v % 10) as u8 + 48) as char);
    proof {
        if v >= 10 {
            assert(crate::fat::decimal(v as nat) == crate::fat::decimal((v / 10) as nat).push(
                crate::fat::digit_char((v % 10) as int),
            ));
        }
    }
}

/// What `echo` prints: its first argument (the last exit code in decimal
/// for "$?", nothing without an argument) and a line break. Its exit code
/// is 0.
pub fn execute_echo(argv: &[&str], last_exit_code: i32) -> (r: (String, i32))
    ensures
        r.1 == 0,
        argv@.len() < 2 ==> r.0@ == seq!['\n'],
        argv@.len() >= 2 ==> r.0@ == (if argv@[1]@ == seq!['$', '?'] {
            int_text(last_exit_code as int)
        } else {
            argv@[1]@
        }) + seq!['\n'],
{
    let mut out: String = String::new();
    assert(out@ == Seq::<char>::empty());
    proof {
        reveal_strlit("$?");
        assert("$?"@ =~= seq!['$', '?']);
    }
    if argv.len() >= 2 {
        let arg: &str = argv[1];
        if word_is(arg, "$?") {
            assert(out@ + int_text(last_exit_code as int) =~= int_text(last_exit_code as int));
            if last_exit_code < 0 {
                push_char(&mut out, '-');
                let mag: u64 = if last_exit_code == i32::MIN {
                    2147483648u64
                } else {
                    (-last_exit_code) as u64
                };
                push_decimal(&mut out, mag);
            } else {
                push_decimal(&mut out, last_exit_code as u64);
            }
        } else {
            out = String::from_str(arg);
        }
    }
    push_char(&mut out, '\n');
    (out, 0)
}

/// The text that `echo` prints for the words `argv` of its command line.
pub open spec fn echo_text(argv: Seq<&str>, last_exit_code: i32) -> Seq<char> {
    if argv.len() < 2 {
        seq!['\n']
    } else if argv[1]@ == seq!['$', '?'] {
        int_text(last_exit_code as int) + seq!['\n']
    } else {
        argv[1]@ + seq!['\n']
    }
}

/// What a command line leads to once its redirect and pipe are set up.
#[derive(Debug)]
pub enum CommandAction {
    /// No command word (the line began with `>` or `|`): nothing runs and
    /// the last exit code stays.
    Nothing,
    /// Prints the text.
    Print(String),
    /// Clears the window.
    Clear,
    /// Lists the PCI devices.
    ListDevices,
    /// Prints the memory statistics.
    ShowMemory,
    /// Starts a terminal without a window that runs the command line, when
    /// there is one.
    StartTerminal(Option<String>),
    /// Lists a directory (`execute_ls`).
    List,
    /// Prints a file (`execute_cat`).
    Concatenate,
    /// Runs the file that the first word names.
    Run,
}

/// Dispatches a planned command line: what runs, and the exit code that it
/// leaves where that does not depend on what it reads (`echo`, `clear`,
/// `lspci` and `noterm` leave 0, `memstat` leaves 1; `ls`, `cat` and a
/// file give their own, and so `None` here).
pub fn run_plan(plan: &CommandPlan, last_exit_code: i32) -> (r: (CommandAction, Option<i32>))
    ensures
        plan.argv@.len() == 0 ==> (r.0 is Nothing && r.1 is None),
        plan.argv@.len() > 0 ==> match plan.kind {
            CommandKind::Echo => (r.0 matches CommandAction::Print(t) && t@ == echo_text(
                plan.argv@,
                last_exit_code,
            )) && r.1 == Some(0i32),
            CommandKind::Clear => r.0 is Clear && r.1 == Some(0i32),
            CommandKind::Lspci => r.0 is ListDevices && r.1 == Some(0i32),
            CommandKind::Memstat => r.0 is ShowMemory && r.1 == Some(1i32),
            CommandKind::Noterm => r.1 == Some(0i32) && (r.0 matches CommandAction::StartTerminal(c) && (
            if plan.argv@.len() >= 2 {
                c matches Some(l) && l@ == plan.argv@[1]@
            } else {
                c is None
            })),
            CommandKind::Ls => r.0 is List && r.1 is None,
            CommandKind::Cat => r.0 is Concatenate && r.1 is None,
            CommandKind::Other => r.0 is Run && r.1 is None,
        },
{
    if plan.argv.len() == 0 {
        return (CommandAction::Nothing, None);
    }
    match plan.kind {
        CommandKind::Echo => {
            let (text, code) = execute_echo(plan.argv.as_slice(), last_exit_code);
            (CommandAction::Print(text), Some(code))
        },
        CommandKind::Clear => (CommandAction::Clear, Some(0)),
        CommandKind::Lspci => (CommandAction::ListDevices, Some(0)),
        CommandKind::Memstat => (CommandAction::ShowMemory, Some(1)),
        CommandKind::Noterm => {
            let line: Option<String> = if plan.argv.len() >= 2 {
                Some(String::from_str(plan.argv[1]))
            } else {
                None
            };
            (CommandAction::StartTerminal(line), Some(0))
        },
        CommandKind::Ls => (CommandAction::List, None),
        CommandKind::Cat => (CommandAction::Concatenate, None),
        CommandKind::Other => (CommandAction::Run, None),
    }
}

/// What the terminal task remembers between messages: whether it shows a
/// window, and whether that window is the active one.
pub struct TerminalLoop {
    pub show_window: bool,
    pub active: bool,
}

/// What the terminal task does for one message.
#[derive(Debug, PartialEq, Eq)]
pub enum TerminalAction {
    /// Nothing.
    Nothing,
    /// Sets the next blink timer to go off at `next_timeout`; when `blink`,
    /// the cursor blinks and its area is redrawn.
    Blink { next_timeout: u64, blink: bool },
    /// Hands the key to `input_key`; when `redraw`, the area it gives back
    /// is redrawn.
    Key { modifier: u8, keycode: u8, ascii: char, redraw: bool },
    /// Closes layer `layer_id` and ends the task with the last exit code.
    Close { layer_id: LayerID },
}

/// Decides what the terminal task does for `message`: a timer sets the
/// next blink half a second later and blinks the cursor of an active
/// window; a key press goes to the line editor (a release does nothing);
/// activation is remembered; a close request closes the window.
pub fn terminal_step(state: &mut TerminalLoop, message: &crate::message::Message) -> (r: TerminalAction)
    requires
        message.m_type matches crate::message::MessageType::TimerTimeout { timeout, .. } ==> timeout
            + crate::timer::TIMER_FREQ / 2 <= u64::MAX,
    ensures
        final(state).show_window == old(state).show_window,
        match message.m_type {
            crate::message::MessageType::TimerTimeout { timeout, .. } => r == (TerminalAction::Blink {
                next_timeout: (timeout + crate::timer::TIMER_FREQ / 2) as u64,
                blink: old(state).show_window && old(state).active,
            }) && final(state).active == old(state).active,
            crate::message::MessageType::KeyPush(k) => final(state).active == old(state).active && if k.press {
                r == (TerminalAction::Key {
                    modifier: k.modifier,
                    keycode: k.keycode,
                    ascii: k.ascii,
                    redraw: old(state).show_window,
                })
            } else {
                r == TerminalAction::Nothing
            },
            crate::message::MessageType::WindowActive(mode) => r == TerminalAction::Nothing && final(state).active
                == (mode == crate::message::WindowActiveMode::Activate),
            crate::message::MessageType::WindowClose(c) => r == (TerminalAction::Close { layer_id: c.layer_id })
                && final(state).active == old(state).active,
            _ => r == TerminalAction::Nothing && final(state).active == old(state).active,
        },
{
    match message.m_type {
        crate::message::MessageType::TimerTimeout { timeout, .. } => TerminalAction::Blink {
            next_timeout: timeout + crate::timer::TIMER_FREQ / 2,
            blink: state.show_window && state.active,
        },
        crate::message::MessageType::KeyPush(k) => {
            if k.press {
                TerminalAction::Key {
                    modifier: k.modifier,
                    keycode: k.keycode,
                    ascii: k.ascii,
                    redraw: state.show_window,
                }
            } else {
                TerminalAction::Nothing
            }
        },
        crate::message::MessageType::WindowActive(mode) => {
            state.active = match mode {
                crate::message::WindowActiveMode::Activate => true,
                crate::message::WindowActiveMode::Deactivate => false,
            };
            TerminalAction::Nothing
        },
        crate::message::MessageType::WindowClose(c) => TerminalAction::Close { layer_id: c.layer_id },
        _ => TerminalAction::Nothing,
    }
}

} // verus!
