//! Sounds: which player a sound file needs, and which system sound to play.
use vstd::prelude::*;
use crate::text::{
    chars_of, copy_range, lower, lower_chars, occurs_at, occurs_at_exec, split_on, split_on_exec,
    string_of, views,
};

verus! {

/// How a sound is played.
#[derive(Clone, Copy, Debug, PartialEq, Eq, Structural)]
pub enum PlaybackBackend {
    /// Decoded natively.
    Native,
    /// Converted by `ffmpeg` first.
    Ffmpeg,
}

/// A sound ready to play.
#[derive(Clone, Debug, PartialEq, Eq)]
pub enum ResolvedSound {
    Native(String),
    Ffmpeg(String),
    TerminalBell,
}

/// What a resolved sound is.
pub enum ResolvedView {
    Native(Seq<char>),
    Ffmpeg(Seq<char>),
    TerminalBell,
}

impl View for ResolvedSound {
    type V = ResolvedView;

    open spec fn view(&self) -> ResolvedView {
        match self {
            ResolvedSound::Native(p) => ResolvedView::Native(p@),
            ResolvedSound::Ffmpeg(p) => ResolvedView::Ffmpeg(p@),
            ResolvedSound::TerminalBell => ResolvedView::TerminalBell,
        }
    }
}

// ---------------------------------------------------------------------------
// Paths
// ---------------------------------------------------------------------------

/// The last component among `parts` that names something: empty and `.`
/// components are skipped, and `..` names nothing.
pub open spec fn last_named(parts: Seq<Seq<char>>) -> Option<Seq<char>>
    decreases parts.len(),
{
    if parts.len() == 0 {
        None
    } else if parts.last().len() == 0 || parts.last() == "."@ {
        last_named(parts.drop_last())
    } else if parts.last() == ".."@ {
        None
    } else {
        Some(parts.last())
    }
}

/// `Path::file_name` of a `/`-separated path.
pub open spec fn file_name(path: Seq<char>) -> Option<Seq<char>> {
    last_named(split_on(path, '/'))
}

/// The position of the last `c` in `s`.
pub open spec fn last_index_of(s: Seq<char>, c: char) -> Option<int>
    decreases s.len(),
{
    if s.len() == 0 {
        None
    } else if s.last() == c {
        Some(s.len() - 1)
    } else {
        last_index_of(s.drop_last(), c)
    }
}

/// `Path::extension` of a file name: what follows its last `.`, unless
/// nothing precedes that dot.
pub open spec fn extension(name: Seq<char>) -> Option<Seq<char>> {
    match last_index_of(name, '.') {
        Some(i) => if i > 0 {
            Some(name.skip(i + 1))
        } else {
            None
        },
        None => None,
    }
}

/// The extensions played natively, in lower case.
pub open spec fn is_native_extension(e: Seq<char>) -> bool {
    e == "mp3"@ || e == "wav"@ || e == "flac"@ || e == "ogg"@ || e == "oga"@ || e == "aiff"@
        || e == "aif"@
}

/// The player for the file at `path`, by its extension in any ASCII case.
pub open spec fn backend_for(path: Seq<char>) -> PlaybackBackend {
    let e = match file_name(path) {
        Some(n) => match extension(n) {
            Some(e) => e,
            None => seq![],
        },
        None => seq![],
    };
    if is_native_extension(lower(e)) {
        PlaybackBackend::Native
    } else {
        PlaybackBackend::Ffmpeg
    }
}

fn same_chars(a: &Vec<char>, b: &Vec<char>) -> (r: bool)
    ensures
        r == (a@ == b@),
{
    if a.len() != b.len() {
        return false;
    }
    let mut i: usize = 0;
    while i < a.len()
        invariant
            i <= a.len() == b.len(),
            forall|k: int| 0 <= k < i ==> a@[k] == b@[k],
        decreases a.len() - i,
    {
        if a[i] != b[i] {
            return false;
        }
        i += 1;
    }
    assert(a@ =~= b@);
    true
}

pub(crate) fn file_name_chars(path: &Vec<char>) -> (r: Option<Vec<char>>)
    ensures
        match file_name(path@) {
            Some(n) => r matches Some(v) && v@ == n,
            None => r is None,
        },
{
    let parts = split_on_exec(path, '/');
    let dot = chars_of(".");
    let dots = chars_of("..");
    let mut k: usize = parts.len();
    assert(views(parts@).take(k as int) =~= views(parts@));
    while k > 0
        invariant
            k <= parts@.len(),
            dot@ == "."@,
            dots@ == ".."@,
            views(parts@) == split_on(path@, '/'),
            last_named(views(parts@)) == last_named(views(parts@).take(k as int)),
        decreases k,
    {
        let ghost ps = views(parts@).take(k as int);
        assert(ps.last() == parts@[k - 1]@);
        assert(ps.drop_last() =~= views(parts@).take(k - 1));
        let part = &parts[k - 1];
        if part.len() == 0 || same_chars(part, &dot) {
            k -= 1;
        } else if same_chars(part, &dots) {
            return None;
        } else {
            return Some(copy_range(part, 0, part.len()));
        }
    }
    None
}

/// The position of the last `.` in `name`.
fn last_dot(name: &Vec<char>) -> (r: Option<usize>)
    ensures
        match r {
            Some(i) => i < name@.len() && last_index_of(name@, '.') == Some(i as int),
            None => last_index_of(name@, '.') is None,
        },
{
    let mut k: usize = name.len();
    assert(name@.take(k as int) =~= name@);
    while k > 0 && name[k - 1] != '.'
        invariant
            k <= name@.len(),
            last_index_of(name@, '.') == last_index_of(name@.take(k as int), '.'),
        decreases k,
    {
        assert(name@.take(k as int).drop_last() =~= name@.take(k - 1));
        k -= 1;
    }
    if k == 0 {
        return None;
    }
    assert(name@.take(k as int).last() == '.');
    Some(k - 1)
}

fn extension_chars(name: &Vec<char>) -> (r: Option<Vec<char>>)
    ensures
        match extension(name@) {
            Some(e) => r matches Some(v) && v@ == e,
            None => r is None,
        },
{
    let dot = last_dot(name);
    let n = name.len();
    match dot {
        Some(i) => if i > 0 {
            let e = copy_range(name, i + 1, n);
            assert(e@ =~= name@.skip(i + 1));
            Some(e)
        } else {
            None
        },
        None => None,
    }
}

fn is_native_extension_exec(e: &Vec<char>) -> (r: bool)
    ensures
        r == is_native_extension(e@),
{
    same_chars(e, &chars_of("mp3")) || same_chars(e, &chars_of("wav")) || same_chars(
        e,
        &chars_of("flac"),
    ) || same_chars(e, &chars_of("ogg")) || same_chars(e, &chars_of("oga")) || same_chars(
        e,
        &chars_of("aiff"),
    ) || same_chars(e, &chars_of("aif"))
}

/// Why a custom sound was refused.
#[derive(Clone, Debug, PartialEq, Eq)]
pub enum SoundError {
    /// The file does not exist or cannot be read; this holds its path.
    Unreadable(String),
}

/// The player for the sound file at `path`; `is_file` says whether a readable
/// file is there.
pub fn classify_custom_sound(path: &str, is_file: bool) -> (r: Result<PlaybackBackend, SoundError>)
    ensures
        is_file ==> r == Ok::<PlaybackBackend, SoundError>(backend_for(path@)),
        !is_file ==> (r matches Err(SoundError::Unreadable(p)) && p@ == path@),
{
    if !is_file {
        return Err(SoundError::Unreadable(path.to_owned()));
    }
    let e = match file_name_chars(&chars_of(path)) {
        Some(n) => match extension_chars(&n) {
            Some(e) => e,
            None => Vec::new(),
        },
        None => Vec::new(),
    };
    if is_native_extension_exec(&lower_chars(&e)) {
        Ok(PlaybackBackend::Native)
    } else {
        Ok(PlaybackBackend::Ffmpeg)
    }
}

/// The sound file at `path`, with the player it needs.
pub fn resolve_custom_sound(path: &str, is_file: bool) -> (r: Result<ResolvedSound, SoundError>)
    ensures
        is_file ==> (r matches Ok(s) && s@ == match backend_for(path@) {
            PlaybackBackend::Native => ResolvedView::Native(path@),
            PlaybackBackend::Ffmpeg => ResolvedView::Ffmpeg(path@),
        }),
        !is_file ==> (r matches Err(SoundError::Unreadable(p)) && p@ == path@),
{
    match classify_custom_sound(path, is_file) {
        Ok(PlaybackBackend::Native) => Ok(ResolvedSound::Native(path.to_owned())),
        Ok(PlaybackBackend::Ffmpeg) => Ok(ResolvedSound::Ffmpeg(path.to_owned())),
        Err(e) => Err(e),
    }
}

// ---------------------------------------------------------------------------
// Installed sounds
// ---------------------------------------------------------------------------

/// `Path::file_stem`: the file name of `path` without its extension.
pub open spec fn file_stem(path: Seq<char>) -> Option<Seq<char>> {
    match file_name(path) {
        Some(n) => match last_index_of(n, '.') {
            Some(i) => if i > 0 {
                Some(n.take(i))
            } else {
                Some(n)
            },
            None => Some(n),
        },
        None => None,
    }
}

/// The name under which the sound file at `path` is listed: its file name
/// without the extension.
pub fn sound_name_of(path: &str) -> (r: Option<String>)
    ensures
        match file_stem(path@) {
            Some(n) => r matches Some(v) && v@ == n,
            None => r is None,
        },
{
    match file_name_chars(&chars_of(path)) {
        Some(n) => {
            let dot = last_dot(&n);
            let stem = match dot {
                Some(i) => if i > 0 {
                    copy_range(&n, 0, i)
                } else {
                    n
                },
                None => n,
            };
            Some(string_of(stem.as_slice()))
        },
        None => None,
    }
}

/// How `String`s are ordered: character by character by code point, a proper
/// prefix before the longer string.
pub open spec fn name_before(a: Seq<char>, b: Seq<char>) -> bool
    decreases a.len(),
{
    if a.len() == 0 {
        b.len() > 0
    } else if b.len() == 0 {
        false
    } else if a[0] != b[0] {
        a[0] < b[0]
    } else {
        name_before(a.drop_first(), b.drop_first())
    }
}

proof fn lemma_before_irreflexive(a: Seq<char>)
    ensures
        !name_before(a, a),
    decreases a.len(),
{
    if a.len() > 0 {
        lemma_before_irreflexive(a.drop_first());
    }
}

proof fn lemma_before_asymmetric(a: Seq<char>, b: Seq<char>)
    requires
        name_before(a, b),
    ensures
        !name_before(b, a),
    decreases a.len(),
{
    if a.len() > 0 && b.len() > 0 && a[0] == b[0] {
        lemma_before_asymmetric(a.drop_first(), b.drop_first());
    }
}

proof fn lemma_before_transitive(a: Seq<char>, b: Seq<char>, c: Seq<char>)
    requires
        name_before(a, b),
        name_before(b, c),
    ensures
        name_before(a, c),
    decreases a.len(),
{
    if a.len() > 0 && b.len() > 0 && c.len() > 0 && a[0] == b[0] && b[0] == c[0] {
        lemma_before_transitive(a.drop_first(), b.drop_first(), c.drop_first());
    }
}

proof fn lemma_before_total(a: Seq<char>, b: Seq<char>)
    requires
        a != b,
    ensures
        name_before(a, b) || name_before(b, a),
    decreases a.len(),
{
    if a.len() == 0 && b.len() == 0 {
        assert(a =~= b);
    } else if a.len() > 0 && b.len() > 0 && a[0] == b[0] {
        if a.drop_first() == b.drop_first() {
            assert(a =~= seq![a[0]] + a.drop_first());
            assert(b =~= seq![b[0]] + b.drop_first());
        }
        lemma_before_total(a.drop_first(), b.drop_first());
    }
}

fn name_before_exec(a: &Vec<char>, b: &Vec<char>) -> (r: bool)
    ensures
        r == name_before(a@, b@),
{
    let mut i: usize = 0;
    assert(a@.skip(0) =~= a@);
    assert(b@.skip(0) =~= b@);
    while i < a.len() && i < b.len() && a[i] == b[i]
        invariant
            i <= a.len(),
            i <= b.len(),
            name_before(a@, b@) == name_before(a@.skip(i as int), b@.skip(i as int)),
        decreases a.len() - i,
    {
        assert(a@.skip(i as int).drop_first() =~= a@.skip(i + 1));
        assert(b@.skip(i as int).drop_first() =~= b@.skip(i + 1));
        i += 1;
    }
    if i == a.len() {
        i < b.len()
    } else if i == b.len() {
        false
    } else {
        a[i] < b[i]
    }
}

/// Whether each name in `e` comes before the next.
pub open spec fn in_name_order(e: Seq<(Seq<char>, Seq<char>)>) -> bool {
    forall|i: int, j: int| 0 <= i < j < e.len() ==> name_before(#[trigger] e[i].0, #[trigger] e[j].0)
}

/// Whether `e` holds an entry named `name`.
pub open spec fn has_name(e: Seq<(Seq<char>, Seq<char>)>, name: Seq<char>) -> bool {
    exists|i: int| 0 <= i < e.len() && #[trigger] e[i].0 == name
}

/// `e` with the entry `(name, path)` placed after the names before `name`.
pub open spec fn insert_sorted(e: Seq<(Seq<char>, Seq<char>)>, name: Seq<char>, path: Seq<char>) -> Seq<
    (Seq<char>, Seq<char>),
>
    decreases e.len(),
{
    if e.len() == 0 || name_before(name, e[0].0) {
        seq![(name, path)] + e
    } else {
        seq![e[0]] + insert_sorted(e.drop_first(), name, path)
    }
}

/// `e` after the sound `path` was found under `name`: the first path found
/// under a name is the one kept.
pub open spec fn recorded(e: Seq<(Seq<char>, Seq<char>)>, name: Seq<char>, path: Seq<char>) -> Seq<
    (Seq<char>, Seq<char>),
> {
    if has_name(e, name) {
        e
    } else {
        insert_sorted(e, name, path)
    }
}

proof fn lemma_insert_at(e: Seq<(Seq<char>, Seq<char>)>, name: Seq<char>, path: Seq<char>, p: int)
    requires
        0 <= p <= e.len(),
        forall|i: int| 0 <= i < p ==> name_before(#[trigger] e[i].0, name),
        p < e.len() ==> name_before(name, e[p].0),
    ensures
        insert_sorted(e, name, path) == e.insert(p, (name, path)),
    decreases e.len(),
{
    if p == 0 {
        assert(e.insert(0, (name, path)) =~= seq![(name, path)] + e);
    } else {
        lemma_before_asymmetric(e[0].0, name);
        let rest = e.drop_first();
        assert forall|i: int| 0 <= i < p - 1 implies name_before(#[trigger] rest[i].0, name) by {
            assert(rest[i] == e[i + 1]);
        }
        lemma_insert_at(rest, name, path, p - 1);
        assert(e.insert(p, (name, path)) =~= seq![e[0]] + rest.insert(p - 1, (name, path)));
    }
}

/// The sounds installed on this machine: each name once, in name order, with
/// the path of the first file found under it.
pub struct SoundIndex {
    entries: Vec<(String, String)>,
}

impl View for SoundIndex {
    type V = Seq<(Seq<char>, Seq<char>)>;

    closed spec fn view(&self) -> Seq<(Seq<char>, Seq<char>)> {
        self.entries@.map_values(|e: (String, String)| (e.0@, e.1@))
    }
}

impl SoundIndex {
    #[verifier::type_invariant]
    spec fn well_formed(self) -> bool {
        in_name_order(self@)
    }

    /// An index of no sounds.
    pub fn new() -> (r: SoundIndex)
        ensures
            r@ == Seq::<(Seq<char>, Seq<char>)>::empty(),
    {
        let r = SoundIndex { entries: Vec::new() };
        assert(r@ =~= Seq::<(Seq<char>, Seq<char>)>::empty());
        r
    }

    pub fn len(&self) -> (r: usize)
        ensures
            r == self@.len(),
    {
        self.entries.len()
    }

    /// The name of the `i`th sound.
    pub fn name(&self, i: usize) -> (r: &str)
        requires
            i < self@.len(),
        ensures
            r@ == self@[i as int].0,
    {
        self.entries[i].0.as_str()
    }

    /// The path of the `i`th sound.
    pub fn path(&self, i: usize) -> (r: &str)
        requires
            i < self@.len(),
        ensures
            r@ == self@[i as int].1,
    {
        self.entries[i].1.as_str()
    }

    /// The number of names that come before `key`.
    fn insertion_point(&self, key: &Vec<char>) -> (p: usize)
        ensures
            p <= self@.len(),
            forall|i: int| 0 <= i < p ==> name_before(#[trigger] self@[i].0, key@),
            p < self@.len() ==> !name_before(self@[p as int].0, key@),
    {
        let mut p: usize = 0;
        while p < self.entries.len()
            invariant
                p <= self@.len() == self.entries@.len(),
                forall|i: int| 0 <= i < p ==> name_before(#[trigger] self@[i].0, key@),
            decreases self.entries.len() - p,
        {
            if !name_before_exec(&chars_of(self.entries[p].0.as_str()), key) {
                return p;
            }
            p += 1;
        }
        p
    }

    /// Records that the sound file `path` was found under `name`. A name
    /// already in the index keeps its path.
    pub fn record(&mut self, name: String, path: String)
        ensures
            final(self)@ == recorded(old(self)@, name@, path@),
            in_name_order(final(self)@),
    {
        proof {
            use_type_invariant(&*self);
        }
        let key = chars_of(name.as_str());
        let p = self.insertion_point(&key);
        let ghost e = self@;
        if p < self.entries.len() && same_chars(&chars_of(self.entries[p].0.as_str()), &key) {
            assert(e[p as int].0 == name@);
            assert(has_name(e, name@));
            return;
        }
        proof {
            if p < e.len() {
                lemma_before_total(e[p as int].0, name@);
            }
            assert forall|i: int| 0 <= i < e.len() implies #[trigger] e[i].0 != name@ by {
                if i < p {
                    lemma_before_irreflexive(name@);
                } else if i > p {
                    lemma_before_transitive(name@, e[p as int].0, e[i].0);
                    lemma_before_irreflexive(name@);
                }
            }
            lemma_insert_at(e, name@, path@, p as int);
            let n = e.insert(p as int, (name@, path@));
            assert forall|i: int, j: int| 0 <= i < j < n.len() implies name_before(
                #[trigger] n[i].0,
                #[trigger] n[j].0,
            ) by {
                if j < p {
                } else if j == p {
                } else if i < p {
                    if j - 1 > p {
                        lemma_before_transitive(e[i].0, name@, e[p as int].0);
                        lemma_before_transitive(e[i].0, e[p as int].0, e[j - 1].0);
                    } else {
                        lemma_before_transitive(e[i].0, name@, e[p as int].0);
                    }
                } else if i == p {
                    if j - 1 > p {
                        lemma_before_transitive(name@, e[p as int].0, e[j - 1].0);
                    }
                } else {
                }
            }
        }
        let ghost n = e.insert(p as int, (name@, path@));
        assert(in_name_order(n));
        let mut entries: Vec<(String, String)> = Vec::new();
        std::mem::swap(&mut entries, &mut self.entries);
        let ghost raw = entries@;
        assert(raw.map_values(|f: (String, String)| (f.0@, f.1@)) == e);
        entries.insert(p, (name, path));
        assert(entries@.map_values(|f: (String, String)| (f.0@, f.1@)) =~= n);
        self.entries = entries;
    }
}

proof fn lemma_insert_sorted_has(e: Seq<(Seq<char>, Seq<char>)>, name: Seq<char>, path: Seq<char>)
    ensures
        has_name(insert_sorted(e, name, path), name),
    decreases e.len(),
{
    if e.len() == 0 || name_before(name, e[0].0) {
        assert(insert_sorted(e, name, path)[0].0 == name);
    } else {
        lemma_insert_sorted_has(e.drop_first(), name, path);
        let rest = insert_sorted(e.drop_first(), name, path);
        let i = choose|i: int| 0 <= i < rest.len() && #[trigger] rest[i].0 == name;
        assert(insert_sorted(e, name, path)[i + 1] == rest[i]);
    }
}

/// Once a sound is listed under a name, later files of that name change
/// nothing: the first path found is the one kept.
pub proof fn law_first_path_kept(
    e: Seq<(Seq<char>, Seq<char>)>,
    name: Seq<char>,
    first: Seq<char>,
    later: Seq<char>,
)
    ensures
        recorded(recorded(e, name, first), name, later) == recorded(e, name, first),
{
    if !has_name(e, name) {
        lemma_insert_sorted_has(e, name, first);
    }
}

/// The sounds listed from the files found, in the order found: each file is
/// listed under its file stem, and a file without one is passed over.
pub open spec fn indexed(files: Seq<Seq<char>>) -> Seq<(Seq<char>, Seq<char>)>
    decreases files.len(),
{
    if files.len() == 0 {
        seq![]
    } else {
        let before = indexed(files.drop_last());
        match file_stem(files.last()) {
            Some(n) => recorded(before, n, files.last()),
            None => before,
        }
    }
}

/// The index of the sound files found, given the paths of every file under the
/// sound directories, in the order the directories were walked.
pub fn discover_sounds_in(files: &Vec<String>) -> (r: SoundIndex)
    ensures
        r@ == indexed(files@.map_values(|f: String| f@)),
        in_name_order(r@),
{
    let ghost texts = files@.map_values(|f: String| f@);
    let mut index = SoundIndex::new();
    let mut i: usize = 0;
    assert(texts.take(0) =~= Seq::<Seq<char>>::empty());
    while i < files.len()
        invariant
            i <= files.len(),
            texts == files@.map_values(|f: String| f@),
            index@ == indexed(texts.take(i as int)),
        decreases files.len() - i,
    {
        assert(texts.take(i + 1).drop_last() =~= texts.take(i as int));
        assert(texts.take(i + 1).last() == files@[i as int]@);
        match sound_name_of(files[i].as_str()) {
            Some(name) => index.record(name, files[i].clone()),
            None => {},
        }
        i += 1;
    }
    assert(texts.take(files.len() as int) =~= texts);
    proof {
        use_type_invariant(&index);
    }
    index
}

// ---------------------------------------------------------------------------
// Choosing a system sound
// ---------------------------------------------------------------------------

/// Whether `s` occurs somewhere in `t`.
pub open spec fn contains(t: Seq<char>, s: Seq<char>) -> bool {
    exists|at: int| occurs_at(t, s, at)
}

fn contains_exec(t: &Vec<char>, s: &Vec<char>) -> (b: bool)
    ensures
        b == contains(t@, s@),
{
    if s.len() > t.len() {
        return false;
    }
    let last = t.len() - s.len();
    let mut at: usize = 0;
    while at < last
        invariant
            at <= last,
            last == t.len() - s.len(),
            forall|k: int| 0 <= k < at ==> !occurs_at(t@, s@, k),
        decreases last - at,
    {
        if occurs_at_exec(t, s, at) {
            return true;
        }
        at += 1;
    }
    occurs_at_exec(t, s, last)
}

/// Names equal to `name` in any ASCII case (`str::eq_ignore_ascii_case`).
pub open spec fn named_like(name: Seq<char>) -> spec_fn(Seq<char>) -> bool {
    |n: Seq<char>| lower(n) == lower(name)
}

/// Names that contain `word` in any ASCII case (`word` in lower case).
pub open spec fn containing(word: Seq<char>) -> spec_fn(Seq<char>) -> bool {
    |n: Seq<char>| contains(lower(n), word)
}

/// The position of the first entry of `e` whose name satisfies `p`.
pub open spec fn first_where(e: Seq<(Seq<char>, Seq<char>)>, p: spec_fn(Seq<char>) -> bool) -> Option<
    int,
>
    decreases e.len(),
{
    if e.len() == 0 {
        None
    } else if p(e[0].0) {
        Some(0)
    } else {
        match first_where(e.drop_first(), p) {
            Some(i) => Some(i + 1),
            None => None,
        }
    }
}

proof fn lemma_first_where(e: Seq<(Seq<char>, Seq<char>)>, p: spec_fn(Seq<char>) -> bool, k: int)
    requires
        0 <= k <= e.len(),
        forall|j: int| 0 <= j < k ==> !p(#[trigger] e[j].0),
    ensures
        k < e.len() && p(e[k].0) ==> first_where(e, p) == Some(k),
        k == e.len() ==> first_where(e, p) is None,
    decreases k,
{
    if k > 0 {
        let rest = e.drop_first();
        assert forall|j: int| 0 <= j < k - 1 implies !p(#[trigger] rest[j].0) by {
            assert(rest[j] == e[j + 1]);
        }
        lemma_first_where(rest, p, k - 1);
    }
}

/// The first installed sound whose name contains `alarm`, else `complete`,
/// else `notification` (in any ASCII case).
pub open spec fn alarm_like_sound(e: Seq<(Seq<char>, Seq<char>)>) -> Option<int> {
    match first_where(e, containing("alarm"@)) {
        Some(i) => Some(i),
        None => match first_where(e, containing("complete"@)) {
            Some(i) => Some(i),
            None => first_where(e, containing("notification"@)),
        },
    }
}

/// The sound played for the system sound `name`: the first installed sound of
/// that name in any ASCII case; failing that, the first whose name contains
/// `alarm`, else `complete`, else `notification`; failing that, the terminal
/// bell.
pub open spec fn system_sound(e: Seq<(Seq<char>, Seq<char>)>, name: Seq<char>) -> ResolvedView {
    match first_where(e, named_like(name)) {
        Some(i) => ResolvedView::Native(e[i].1),
        None => match alarm_like_sound(e) {
            Some(i) => ResolvedView::Native(e[i].1),
            None => ResolvedView::TerminalBell,
        },
    }
}

impl SoundIndex {
    fn first_named_like(&self, name: &Vec<char>) -> (r: Option<usize>)
        ensures
            match r {
                Some(i) => i < self@.len() && first_where(self@, named_like(name@)) == Some(i as int),
                None => first_where(self@, named_like(name@)) is None,
            },
    {
        let wanted = lower_chars(name);
        let mut i: usize = 0;
        while i < self.entries.len()
            invariant
                i <= self@.len() == self.entries@.len(),
                wanted@ == lower(name@),
                forall|j: int| 0 <= j < i ==> !named_like(name@)(#[trigger] self@[j].0),
            decreases self.entries.len() - i,
        {
            let candidate = lower_chars(&chars_of(self.entries[i].0.as_str()));
            if same_chars(&candidate, &wanted) {
                proof {
                    lemma_first_where(self@, named_like(name@), i as int);
                }
                return Some(i);
            }
            i += 1;
        }
        proof {
            lemma_first_where(self@, named_like(name@), i as int);
        }
        None
    }

    fn first_containing(&self, word: &Vec<char>) -> (r: Option<usize>)
        ensures
            match r {
                Some(i) => i < self@.len() && first_where(self@, containing(word@)) == Some(i as int),
                None => first_where(self@, containing(word@)) is None,
            },
    {
        let mut i: usize = 0;
        while i < self.entries.len()
            invariant
                i <= self@.len() == self.entries@.len(),
                forall|j: int| 0 <= j < i ==> !containing(word@)(#[trigger] self@[j].0),
            decreases self.entries.len() - i,
        {
            let name = lower_chars(&chars_of(self.entries[i].0.as_str()));
            if contains_exec(&name, word) {
                proof {
                    lemma_first_where(self@, containing(word@), i as int);
                }
                return Some(i);
            }
            i += 1;
        }
        proof {
            lemma_first_where(self@, containing(word@), i as int);
        }
        None
    }

    fn first_alarm_like(&self) -> (r: Option<usize>)
        ensures
            match r {
                Some(i) => i < self@.len() && alarm_like_sound(self@) == Some(i as int),
                None => alarm_like_sound(self@) is None,
            },
    {
        match self.first_containing(&chars_of("alarm")) {
            Some(i) => return Some(i),
            None => {},
        }
        match self.first_containing(&chars_of("complete")) {
            Some(i) => return Some(i),
            None => {},
        }
        self.first_containing(&chars_of("notification"))
    }
}

/// The installed sound played for the system sound `name`.
pub fn resolve_system_sound(sounds: &SoundIndex, name: &str) -> (r: ResolvedSound)
    ensures
        r@ == system_sound(sounds@, name@),
{
    match sounds.first_named_like(&chars_of(name)) {
        Some(i) => ResolvedSound::Native(sounds.path(i).to_owned()),
        None => match sounds.first_alarm_like() {
            Some(i) => ResolvedSound::Native(sounds.path(i).to_owned()),
            None => ResolvedSound::TerminalBell,
        },
    }
}

} // verus!
