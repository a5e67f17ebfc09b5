//! What is shown of the process: its threads and the filesystems that it uses.
use crate::text::{
    chars_of, find_char, first_at, has_prefix, is_white, last_before, lowered, parse_number,
    parsed_number, rfind_char, same_text, starts_with, text_of, to_lower, trim, trimmed,
    trimmed_start, white,
};
use vstd::prelude::*;

pub mod threads;

verus! {

/// Characters of a thread's name that the system keeps.
pub const THREAD_NAME_LEN: usize = 15;

// ---------------------------------------------------------------------------
// Threads.
// ---------------------------------------------------------------------------

/// A text up to the length of a thread's name.
pub open spec fn cut_name(full: Seq<char>) -> Seq<char> {
    if full.len() > THREAD_NAME_LEN {
        full.subrange(0, THREAD_NAME_LEN as int)
    } else {
        full
    }
}

/// A name begins with another one, which may have been cut.
pub open spec fn seems(name: Seq<char>, full: Seq<char>) -> bool {
    has_prefix(name, full) || has_prefix(name, cut_name(full))
}

/// Whether a name begins with another one, which may have been cut.
fn matches_seed(comm: &str, full: &str) -> (r: bool)
    ensures
        r == seems(comm@, full@),
{
    if starts_with(comm, full) {
        return true;
    }
    let v = chars_of(full);
    let n: usize = if v.len() > THREAD_NAME_LEN {
        THREAD_NAME_LEN
    } else {
        v.len()
    };
    let cut = text_of(&v, 0, n);
    assert(cut@ =~= cut_name(full@));
    starts_with(comm, cut.as_str())
}

/// A text with spaces in the place of hyphens.
pub open spec fn spaced(s: Seq<char>) -> Seq<char> {
    s.map_values(
        |c: char|
            if c == '-' {
                ' '
            } else {
                c
            },
    )
}

fn with_spaces(v: &Vec<char>, from: usize) -> (s: String)
    requires
        from <= v@.len(),
    ensures
        s@ == spaced(v@.subrange(from as int, v@.len() as int)),
{
    let mut s = String::new();
    let mut i: usize = from;
    assert(spaced(v@.subrange(from as int, from as int)) =~= Seq::<char>::empty());
    while i < v.len()
        invariant
            from <= i <= v@.len(),
            s@ == spaced(v@.subrange(from as int, i as int)),
        decreases v@.len() - i,
    {
        if v[i] == '-' {
            s.push(' ');
        } else {
            s.push(v[i]);
        }
        assert(s@ =~= spaced(v@.subrange(from as int, i + 1)));
        i += 1;
    }
    s
}

/// The label of a thread whose name, in lower case, is one of ours.
pub open spec fn worker_label(name: Seq<char>) -> Option<Seq<char>> {
    if seems(name, "seedchamp-io"@) {
        Some("peer i/o"@)
    } else if seems(name, "seedchamp-acc"@) {
        Some("accept"@)
    } else if seems(name, "seedchamp-trk"@) {
        Some("tracker"@)
    } else if seems(name, "seedchamp-block"@) || has_prefix(name, "seedchamp-bloc"@) {
        Some("blocking pool"@)
    } else if seems(name, "seedchamp-hash"@) {
        Some("piece hash"@)
    } else if name == "seedchamp-disk-uring"@ {
        Some("disk (io_uring)"@)
    } else if name == "seedchamp-disk-aio"@ {
        Some("disk (aio)"@)
    } else if name == "seedchamp-disk"@ {
        Some("disk (thread)"@)
    } else if has_prefix(name, "seedchamp-disk"@) {
        Some("disk"@)
    } else if seems(name, "seedchamp-control"@) {
        Some("control plane"@)
    } else if seems(name, "seedchamp-mutate"@) {
        Some("catalog mutate"@)
    } else if seems(name, "seedchamp-cread"@) || has_prefix(name, "seedchamp-crea"@) {
        Some("catalog reader"@)
    } else if seems(name, "seedchamp-watch"@) {
        Some("watch dir"@)
    } else if seems(name, "seedchamp-serve"@) {
        Some("serve loop"@)
    } else if seems(name, "seedchamp-recheck"@) {
        Some("recheck"@)
    } else if seems(name, "seedchamp-tui-add"@) {
        Some("tui add"@)
    } else if seems(name, "seedchamp-rt-drop"@) {
        Some("runtime teardown"@)
    } else if has_prefix(name, "seedchamp"@) && first_at(name, '-', 0) == name.len() {
        Some("main"@)
    } else if name == "seedchamp-engine"@ {
        Some("main"@)
    } else {
        None
    }
}

/// The label of a thread whose name, in lower case, is one of ours.
fn label_of_worker(name: &str) -> (r: Option<&'static str>)
    ensures
        match r {
            Some(l) => worker_label(name@) == Some(l@),
            None => worker_label(name@) is None,
        },
{
    if matches_seed(name, "seedchamp-io") {
        return Some("peer i/o");
    }
    if matches_seed(name, "seedchamp-acc") {
        return Some("accept");
    }
    if matches_seed(name, "seedchamp-trk") {
        return Some("tracker");
    }
    if matches_seed(name, "seedchamp-block") || starts_with(name, "seedchamp-bloc") {
        return Some("blocking pool");
    }
    if matches_seed(name, "seedchamp-hash") {
        return Some("piece hash");
    }
    if same_text(name, "seedchamp-disk-uring") {
        return Some("disk (io_uring)");
    }
    if same_text(name, "seedchamp-disk-aio") {
        return Some("disk (aio)");
    }
    if same_text(name, "seedchamp-disk") {
        return Some("disk (thread)");
    }
    if starts_with(name, "seedchamp-disk") {
        return Some("disk");
    }
    if matches_seed(name, "seedchamp-control") {
        return Some("control plane");
    }
    if matches_seed(name, "seedchamp-mutate") {
        return Some("catalog mutate");
    }
    if matches_seed(name, "seedchamp-cread") || starts_with(name, "seedchamp-crea") {
        return Some("catalog reader");
    }
    if matches_seed(name, "seedchamp-watch") {
        return Some("watch dir");
    }
    if matches_seed(name, "seedchamp-serve") {
        return Some("serve loop");
    }
    if matches_seed(name, "seedchamp-recheck") {
        return Some("recheck");
    }
    if matches_seed(name, "seedchamp-tui-add") {
        return Some("tui add");
    }
    if matches_seed(name, "seedchamp-rt-drop") {
        return Some("runtime teardown");
    }
    let v = chars_of(name);
    if starts_with(name, "seedchamp") && find_char(&v, '-') == v.len() {
        return Some("main");
    }
    if same_text(name, "seedchamp-engine") {
        return Some("main");
    }
    None
}

/// The label of a thread: what it does, where its name is one of ours, else its name.
pub open spec fn thread_label(raw: Seq<char>) -> Seq<char> {
    let s = trimmed(raw);
    let ours = "seedchamp-"@;
    if s.len() == 0 {
        "unknown"@
    } else if worker_label(lowered(s)) is Some {
        worker_label(lowered(s))->0
    } else if has_prefix(s, ours) && s.len() > ours.len() {
        spaced(s.subrange(ours.len() as int, s.len() as int))
    } else {
        s
    }
}

/// The label of a thread.
pub fn pretty_thread_name(raw: &str) -> (r: String)
    ensures
        r@ == thread_label(raw@),
{
    let s = trim(raw);
    if s.as_str().is_empty() {
        return "unknown".to_owned();
    }
    let lower = to_lower(s.as_str());
    if let Some(l) = label_of_worker(lower.as_str()) {
        return l.to_owned();
    }
    proof {
        reveal_strlit("seedchamp-");
    }
    if starts_with(s.as_str(), "seedchamp-") {
        let v = chars_of(s.as_str());
        if v.len() > 10 {
            return with_spaces(&v, 10);
        }
    }
    s
}

/// The first place from `i` on that holds white space, or the end.
pub open spec fn word_end(s: Seq<char>, i: int) -> int
    decreases s.len() - i,
{
    if i < 0 || i >= s.len() {
        s.len() as int
    } else if is_white(s[i]) {
        i
    } else {
        word_end(s, i + 1)
    }
}

/// The word with this place among those of a text.
pub open spec fn word(s: Seq<char>, k: nat) -> Option<Seq<char>>
    decreases k,
{
    let t = trimmed_start(s);
    let e = word_end(t, 0);
    if t.len() == 0 {
        None
    } else if k == 0 {
        Some(t.subrange(0, e))
    } else {
        word(t.subrange(e, t.len() as int), (k - 1) as nat)
    }
}

/// The word with place `k` among those of `v[from..]`.
fn word_at(v: &Vec<char>, from: usize, k: usize) -> (r: Option<(usize, usize)>)
    requires
        from <= v@.len(),
    ensures
        match r {
            Some((a, b)) => a <= b <= v@.len() && word(
                v@.subrange(from as int, v@.len() as int),
                k as nat,
            ) == Some(v@.subrange(a as int, b as int)),
            None => word(v@.subrange(from as int, v@.len() as int), k as nat) is None,
        },
{
    let ghost n = v@.len() as int;
    let ghost all = v@.subrange(from as int, n);
    let mut at: usize = from;
    let mut left: usize = k;
    while at <= v.len()
        invariant
            at <= v@.len(),
            n == v@.len(),
            all == v@.subrange(from as int, n),
            word(all, k as nat) == word(v@.subrange(at as int, n), left as nat),
        decreases left,
    {
        let mut a: usize = at;
        let ghost s = v@.subrange(at as int, n);
        while a < v.len() && white(v[a])
            invariant
                at <= a <= v@.len(),
                n == v@.len(),
                s == v@.subrange(at as int, n),
                trimmed_start(s) == trimmed_start(v@.subrange(a as int, n)),
            decreases v@.len() - a,
        {
            let ghost rest = v@.subrange(a as int, n);
            assert(rest.subrange(1, rest.len() as int) =~= v@.subrange(a + 1, n));
            a += 1;
        }
        let ghost t = v@.subrange(a as int, n);
        assert(trimmed_start(s) == t);
        if a == v.len() {
            return None;
        }
        let mut b: usize = a;
        while b < v.len() && !white(v[b])
            invariant
                a <= b <= v@.len(),
                n == v@.len(),
                t == v@.subrange(a as int, n),
                word_end(t, 0) == word_end(t, b - a),
            decreases v@.len() - b,
        {
            assert(t[b - a] == v@[b as int]);
            b += 1;
        }
        proof {
            if b < v@.len() {
                assert(t[b - a] == v@[b as int]);
            }
            assert(word_end(t, 0) == b - a);
            assert(t.subrange(0, b - a) =~= v@.subrange(a as int, b as int));
            assert(t.subrange(b - a, t.len() as int) =~= v@.subrange(b as int, n));
        }
        if left == 0 {
            return Some((a, b));
        }
        left -= 1;
        at = b;
    }
    None
}

/// Time that a thread has used, in ticks, from its `stat` line: user and system time, which
/// are the twelfth and thirteenth words behind the name. The name stands in brackets and may
/// hold any character.
pub open spec fn ticks_of(stat: Seq<char>) -> Option<u64> {
    let p = last_before(stat, ')', stat.len() as int);
    let after = stat.subrange(p + 1, stat.len() as int);
    if p < 0 || word(after, 11) is None || word(after, 12) is None {
        None
    } else {
        let u = parsed_number(word(after, 11)->0, u64::MAX as nat);
        let t = parsed_number(word(after, 12)->0, u64::MAX as nat);
        if u is None || t is None {
            None
        } else if u->0 + t->0 > u64::MAX {
            Some(u64::MAX)
        } else {
            Some((u->0 + t->0) as u64)
        }
    }
}

/// Time that a thread has used, in ticks, from its `stat` line.
pub fn read_task_jiffies(stat: &str) -> (r: Option<u64>)
    ensures
        r == ticks_of(stat@),
{
    let v = chars_of(stat);
    let p: usize = match rfind_char(&v, ')', v.len()) {
        Some(p) => p,
        None => {
            return None;
        },
    };
    let user = match word_at(&v, p + 1, 11) {
        Some((a, b)) => parse_number(&v, a, b, u64::MAX),
        None => {
            return None;
        },
    };
    let system = match word_at(&v, p + 1, 12) {
        Some((a, b)) => parse_number(&v, a, b, u64::MAX),
        None => {
            return None;
        },
    };
    match (user, system) {
        (Some(u), Some(t)) => {
            if t > u64::MAX - u {
                Some(u64::MAX)
            } else {
                Some(u + t)
            }
        },
        _ => None,
    }
}

// ---------------------------------------------------------------------------
// Filesystems.
// ---------------------------------------------------------------------------

/// A filesystem, as shown.
#[derive(Debug)]
pub struct FilesystemUsage {
    /// Directory that it is mounted on.
    pub path: String,
    pub free_bytes: u64,
    pub total_bytes: u64,
    /// New torrents are stored here.
    pub is_default: bool,
    /// Running torrents that are stored here.
    pub open_torrents: u32,
}

/// A [`FilesystemUsage`] with its text as a sequence.
#[verifier::ext_equal]
pub struct UsageView {
    pub path: Seq<char>,
    pub free_bytes: u64,
    pub total_bytes: u64,
    pub is_default: bool,
    pub open_torrents: u32,
}

impl View for FilesystemUsage {
    type V = UsageView;

    open spec fn view(&self) -> UsageView {
        UsageView {
            path: self.path@,
            free_bytes: self.free_bytes,
            total_bytes: self.total_bytes,
            is_default: self.is_default,
            open_torrents: self.open_torrents,
        }
    }
}

impl FilesystemUsage {
    /// Bytes in use.
    pub fn used_bytes(&self) -> (n: u64)
        ensures
            n == if self.total_bytes > self.free_bytes {
                self.total_bytes - self.free_bytes
            } else {
                0
            },
    {
        if self.total_bytes > self.free_bytes {
            self.total_bytes - self.free_bytes
        } else {
            0
        }
    }
}

/// Bytes of a number of blocks, as many as can be counted.
pub open spec fn spec_block_bytes(blocks: u64, block_size: u64) -> u64 {
    if blocks * block_size > u64::MAX {
        u64::MAX
    } else {
        (blocks * block_size) as u64
    }
}

/// Bytes of a number of blocks, as many as can be counted.
pub fn block_bytes(blocks: u64, block_size: u64) -> (n: u64)
    ensures
        n == spec_block_bytes(blocks, block_size),
{
    match blocks.checked_mul(block_size) {
        Some(n) => n,
        None => u64::MAX,
    }
}

/// A path as shown, with a tilde for the home directory.
pub open spec fn short_path(s: Seq<char>, home: Option<Seq<char>>) -> Seq<char> {
    match home {
        Some(h) => if h.len() == 0 {
            s
        } else if s == h {
            "~"@
        } else if has_prefix(s, h + "/"@) {
            "~/"@ + s.subrange(h.len() as int + 1, s.len() as int)
        } else {
            s
        },
        None => s,
    }
}

/// A path as shown, with a tilde for the home directory.
pub fn shorten_path_display(s: &str, home: Option<&str>) -> (r: String)
    ensures
        r@ == short_path(
            s@,
            match home {
                Some(h) => Some(h@),
                None => None,
            },
        ),
{
    if let Some(h) = home {
        if !h.is_empty() {
            if same_text(s, h) {
                return "~".to_owned();
            }
            let mut prefix = h.to_owned();
            prefix.append("/");
            proof {
                reveal_strlit("/");
            }
            if starts_with(s, prefix.as_str()) {
                let v = chars_of(s);
                let p = chars_of(prefix.as_str());
                let rest = text_of(&v, p.len(), v.len());
                let mut out = "~/".to_owned();
                out.append(rest.as_str());
                return out;
            }
        }
    }
    s.to_owned()
}

/// A filesystem that is used.
#[derive(Debug)]
pub struct FsRow {
    /// Number by which the system knows it.
    pub dev: u64,
    /// Directory that it is mounted on.
    pub mount: String,
    pub free: u64,
    pub total: u64,
    pub is_default: bool,
    pub open_torrents: u32,
}

/// Place of a filesystem in a list, or the end.
pub open spec fn dev_at(rows: Seq<FsRow>, dev: u64, i: int) -> int
    decreases rows.len() - i,
{
    if i < 0 || i >= rows.len() {
        rows.len() as int
    } else if rows[i].dev == dev {
        i
    } else {
        dev_at(rows, dev, i + 1)
    }
}

/// One more torrent, as far as can be counted.
pub open spec fn one_more(n: u32, count: bool) -> u32 {
    if count && n < u32::MAX {
        (n + 1) as u32
    } else {
        n
    }
}

/// How many steps up from a directory on filesystem `dev` its mount point is: `parents` are
/// the filesystems of the directories above it, the nearest first, where they can be told.
pub fn filesystem_mount_point(parents: &Vec<Option<u64>>, dev: u64) -> (n: usize)
    ensures
        n <= parents@.len(),
        forall|i: int| 0 <= i < n ==> #[trigger] parents@[i] == Some(dev),
        n < parents@.len() ==> parents@[n as int] != Some(dev),
{
    let mut n: usize = 0;
    while n < parents.len()
        invariant
            n <= parents@.len(),
            forall|i: int| 0 <= i < n ==> #[trigger] parents@[i] == Some(dev),
        decreases parents@.len() - n,
    {
        match parents[n] {
            Some(d) => {
                if d != dev {
                    return n;
                }
            },
            None => {
                return n;
            },
        }
        n += 1;
    }
    n
}

/// What the system tells of the filesystem that a directory is on.
#[derive(Debug)]
pub struct FsProbe {
    /// Number by which the system knows it.
    pub dev: u64,
    /// Directory that it is mounted on.
    pub mount: String,
    /// Bytes of a block; zero where the system does not tell.
    pub fragment_size: u64,
    pub blocks: u64,
    /// Blocks that an ordinary user may fill.
    pub blocks_available: u64,
}

/// A filesystem with what is now known of it.
pub open spec fn refreshed(r: FsRow, p: FsProbe, is_default: bool, count_torrent: bool) -> FsRow {
    FsRow {
        free: spec_block_bytes(p.blocks_available, p.fragment_size),
        total: spec_block_bytes(p.blocks, p.fragment_size),
        is_default: r.is_default || is_default,
        open_torrents: one_more(r.open_torrents, count_torrent),
        ..r
    }
}

/// The filesystems once a directory has been noted.
pub open spec fn touched(
    s: Seq<FsRow>,
    p: FsProbe,
    is_default: bool,
    count_torrent: bool,
) -> Seq<FsRow> {
    let i = dev_at(s, p.dev, 0);
    let fresh = FsRow {
        dev: p.dev,
        mount: p.mount,
        free: 0,
        total: 0,
        is_default: false,
        open_torrents: 0,
    };
    if p.fragment_size == 0 {
        s
    } else if i < s.len() {
        s.update(i, refreshed(s[i], p, is_default, count_torrent))
    } else {
        s.push(refreshed(fresh, p, is_default, count_torrent))
    }
}

/// The filesystems once the directory of new torrents and the first directories of running
/// torrents have been noted.
pub open spec fn filesystems(
    default_root: Option<FsProbe>,
    open_roots: Seq<FsProbe>,
    n: int,
) -> Seq<FsRow>
    decreases n,
{
    if n > 0 {
        touched(filesystems(default_root, open_roots, n - 1), open_roots[n - 1], false, true)
    } else {
        match default_root {
            Some(p) => touched(Seq::empty(), p, true, false),
            None => Seq::empty(),
        }
    }
}

/// Note a directory: that of new torrents, or one of a running torrent.
///
/// A filesystem keeps the mount point it was first found with; its sizes are the latest.
pub fn touch(rows: &mut Vec<FsRow>, probe: FsProbe, is_default: bool, count_torrent: bool)
    ensures
        final(rows)@ == touched(old(rows)@, probe, is_default, count_torrent),
{
    let ghost s = rows@;
    if probe.fragment_size == 0 {
        return;
    }
    let free: u64 = block_bytes(probe.blocks_available, probe.fragment_size);
    let total: u64 = block_bytes(probe.blocks, probe.fragment_size);
    let mut i: usize = 0;
    while i < rows.len() && rows[i].dev != probe.dev
        invariant
            i <= rows@.len(),
            rows@ == s,
            dev_at(s, probe.dev, 0) == dev_at(s, probe.dev, i as int),
        decreases rows@.len() - i,
    {
        i += 1;
    }
    if i < rows.len() {
        let r = rows.remove(i);
        let open_torrents: u32 = if count_torrent && r.open_torrents < u32::MAX {
            r.open_torrents + 1
        } else {
            r.open_torrents
        };
        let next = FsRow {
            dev: r.dev,
            mount: r.mount,
            free,
            total,
            is_default: r.is_default || is_default,
            open_torrents,
        };
        rows.insert(i, next);
        assert(rows@ =~= s.update(
            i as int,
            refreshed(s[i as int], probe, is_default, count_torrent),
        ));
    } else {
        let open_torrents: u32 = if count_torrent {
            1
        } else {
            0
        };
        rows.push(
            FsRow { dev: probe.dev, mount: probe.mount, free, total, is_default, open_torrents },
        );
    }
}

/// A text comes before another one, character by character.
pub open spec fn text_before(a: Seq<char>, b: Seq<char>) -> bool
    decreases a.len(),
{
    if b.len() == 0 {
        false
    } else if a.len() == 0 {
        true
    } else {
        a[0] < b[0] || a[0] == b[0] && text_before(a.drop_first(), b.drop_first())
    }
}

/// Of two texts one comes before the other, unless they are the same.
pub proof fn text_before_is_total(a: Seq<char>, b: Seq<char>)
    ensures
        a == b || text_before(a, b) || text_before(b, a),
        !(text_before(a, b) && text_before(b, a)),
        a == b ==> !text_before(a, b),
    decreases a.len(),
{
    if a.len() > 0 && b.len() > 0 {
        text_before_is_total(a.drop_first(), b.drop_first());
        if a[0] == b[0] && a.drop_first() == b.drop_first() {
            assert(a =~= seq![a[0]] + a.drop_first());
            assert(b =~= seq![b[0]] + b.drop_first());
        }
    } else if a.len() == 0 && b.len() == 0 {
        assert(a =~= b);
    }
}

/// A text that comes before another one comes before all that follow it.
pub proof fn text_before_is_transitive(a: Seq<char>, b: Seq<char>, c: Seq<char>)
    requires
        text_before(a, b),
        text_before(b, c),
    ensures
        text_before(a, c),
    decreases a.len(),
{
    if a.len() > 0 && a[0] == b[0] && b[0] == c[0] {
        text_before_is_transitive(a.drop_first(), b.drop_first(), c.drop_first());
    }
}

/// Whether a text comes before another one.
pub fn comes_before(a: &str, b: &str) -> (r: bool)
    ensures
        r == text_before(a@, b@),
{
    let x = chars_of(a);
    let y = chars_of(b);
    let mut i: usize = 0;
    assert(x@.subrange(0, x@.len() as int) =~= x@);
    assert(y@.subrange(0, y@.len() as int) =~= y@);
    while i < x.len() && i < y.len()
        invariant
            i <= x@.len(),
            i <= y@.len(),
            x@ == a@,
            y@ == b@,
            text_before(a@, b@) == text_before(
                x@.subrange(i as int, x@.len() as int),
                y@.subrange(i as int, y@.len() as int),
            ),
        decreases x@.len() - i,
    {
        let ghost p = x@.subrange(i as int, x@.len() as int);
        let ghost q = y@.subrange(i as int, y@.len() as int);
        assert(p[0] == x@[i as int] && q[0] == y@[i as int]);
        assert(p.drop_first() =~= x@.subrange(i + 1, x@.len() as int));
        assert(q.drop_first() =~= y@.subrange(i + 1, y@.len() as int));
        if x[i] < y[i] {
            return true;
        }
        if x[i] != y[i] {
            return false;
        }
        i += 1;
    }
    i < y.len()
}

/// A filesystem is shown before another one: that of new torrents first, then those with more
/// torrents, then in the order of their paths.
pub open spec fn shown_before(a: UsageView, b: UsageView) -> bool {
    if a.is_default != b.is_default {
        a.is_default
    } else if a.open_torrents != b.open_torrents {
        a.open_torrents > b.open_torrents
    } else {
        text_before(a.path, b.path)
    }
}

proof fn shown_order(a: UsageView, b: UsageView, c: UsageView)
    requires
        !shown_before(b, a),
        !shown_before(c, b),
    ensures
        !shown_before(c, a),
{
    if a.is_default == c.is_default && a.open_torrents == c.open_torrents {
        text_before_is_total(a.path, b.path);
        text_before_is_total(b.path, c.path);
        text_before_is_total(a.path, c.path);
        if text_before(a.path, b.path) && text_before(b.path, c.path) {
            text_before_is_transitive(a.path, b.path, c.path);
        }
    }
}

/// A list with one filesystem more, in order.
pub open spec fn placed_usage(s: Seq<UsageView>, u: UsageView) -> Seq<UsageView>
    decreases s.len(),
{
    if s.len() == 0 || !shown_before(u, s.last()) {
        s.push(u)
    } else {
        placed_usage(s.drop_last(), u).push(s.last())
    }
}

/// A filesystem, as shown.
pub open spec fn usage_of(r: FsRow, home: Option<Seq<char>>) -> UsageView {
    UsageView {
        path: short_path(r.mount@, home),
        free_bytes: r.free,
        total_bytes: r.total,
        is_default: r.is_default,
        open_torrents: r.open_torrents,
    }
}

/// The first `n` filesystems, as shown.
pub open spec fn usages(rows: Seq<FsRow>, n: int, home: Option<Seq<char>>) -> Seq<UsageView>
    decreases n,
{
    if n <= 0 {
        Seq::empty()
    } else {
        placed_usage(usages(rows, n - 1, home), usage_of(rows[n - 1], home))
    }
}

/// The filesystems are shown in order.
pub proof fn usages_are_in_order(rows: Seq<FsRow>, n: int, home: Option<Seq<char>>)
    requires
        0 <= n <= rows.len(),
    ensures
        usages(rows, n, home).len() == n,
        forall|i: int, j: int|
            0 <= i < j < n ==> !shown_before(
                #[trigger] usages(rows, n, home)[j],
                #[trigger] usages(rows, n, home)[i],
            ),
    decreases n,
{
    if n > 0 {
        usages_are_in_order(rows, n - 1, home);
        placed_in_order(usages(rows, n - 1, home), usage_of(rows[n - 1], home));
    }
}

proof fn placed_in_order(s: Seq<UsageView>, u: UsageView)
    requires
        forall|i: int, j: int| 0 <= i < j < s.len() ==> !shown_before(#[trigger] s[j], #[trigger] s[i]),
    ensures
        placed_usage(s, u).len() == s.len() + 1,
        forall|i: int, j: int|
            0 <= i < j < placed_usage(s, u).len() ==> !shown_before(
                #[trigger] placed_usage(s, u)[j],
                #[trigger] placed_usage(s, u)[i],
            ),
        forall|i: int|
            0 <= i < placed_usage(s, u).len() ==> {
                ||| #[trigger] placed_usage(s, u)[i] == u
                ||| s.contains(placed_usage(s, u)[i])
            },
    decreases s.len(),
{
    let p = placed_usage(s, u);
    if s.len() == 0 || !shown_before(u, s.last()) {
        assert forall|i: int, j: int| 0 <= i < j < p.len() implies !shown_before(
            #[trigger] p[j],
            #[trigger] p[i],
        ) by {
            if j == s.len() {
                if i < s.len() - 1 {
                    assert(!shown_before(s[s.len() - 1], s[i]));
                    shown_order(s[i], s.last(), u);
                }
            }
        }
        assert forall|i: int| 0 <= i < p.len() implies (#[trigger] p[i] == u || s.contains(p[i])) by {
            if i < s.len() {
                assert(s[i] == p[i]);
            }
        }
    } else {
        let d = s.drop_last();
        let q = placed_usage(d, u);
        placed_in_order(d, u);
        assert forall|i: int| 0 <= i < q.len() implies !shown_before(s.last(), #[trigger] q[i]) by {
            if q[i] == u {
                text_before_is_total(u.path, s.last().path);
            } else {
                let k = d.index_of(q[i]);
                assert(d[k] == q[i]);
                assert(s[k] == q[i]);
                assert(!shown_before(s[s.len() - 1], s[k]));
            }
        }
        assert forall|i: int| 0 <= i < p.len() implies (#[trigger] p[i] == u || s.contains(p[i])) by {
            if i < q.len() {
                if q[i] != u {
                    let k = d.index_of(q[i]);
                    assert(s[k] == q[i]);
                }
            } else {
                assert(s[s.len() - 1] == p[i]);
            }
        }
    }
}

/// The texts and numbers of a list of filesystems.
pub open spec fn views(v: Seq<FilesystemUsage>) -> Seq<UsageView> {
    v.map_values(|u: FilesystemUsage| u@)
}

/// Put a filesystem into a list in order.
fn place_usage(out: &mut Vec<FilesystemUsage>, u: FilesystemUsage)
    ensures
        views(final(out)@) == placed_usage(views(old(out)@), u@),
{
    let ghost s = views(out@);
    let mut at: usize = out.len();
    assert(s.subrange(0, at as int) =~= s);
    assert(placed_usage(s, u@) =~= placed_usage(s.subrange(0, at as int), u@) + s.subrange(
        at as int,
        s.len() as int,
    ));
    while at > 0
        invariant_except_break
            at <= out@.len(),
            out@ == old(out)@,
            s == views(out@),
            placed_usage(s, u@) == placed_usage(s.subrange(0, at as int), u@) + s.subrange(
                at as int,
                s.len() as int,
            ),
        ensures
            at <= out@.len(),
            out@ == old(out)@,
            placed_usage(s, u@) == s.subrange(0, at as int).push(u@) + s.subrange(
                at as int,
                s.len() as int,
            ),
        decreases at,
    {
        let ghost front = s.subrange(0, at as int);
        let o: &FilesystemUsage = &out[at - 1];
        assert(front.last() == o@);
        let first: bool = if u.is_default != o.is_default {
            u.is_default
        } else if u.open_torrents != o.open_torrents {
            u.open_torrents > o.open_torrents
        } else {
            comes_before(u.path.as_str(), o.path.as_str())
        };
        if !first {
            break;
        }
        proof {
            assert(front.drop_last() =~= s.subrange(0, at - 1));
            assert(placed_usage(front.drop_last(), u@).push(front.last()) + s.subrange(
                at as int,
                s.len() as int,
            ) =~= placed_usage(front.drop_last(), u@) + s.subrange(at - 1, s.len() as int));
        }
        at -= 1;
    }
    let ghost v = u@;
    out.insert(at, u);
    assert(views(out@) =~= s.subrange(0, at as int).push(v) + s.subrange(
        at as int,
        s.len() as int,
    ));
}

/// The filesystems, as shown: that of new torrents first, then those with more torrents, then
/// in the order of their paths.
pub fn filesystem_usage(rows: &Vec<FsRow>, home: Option<&str>) -> (out: Vec<FilesystemUsage>)
    ensures
        views(out@) == usages(
            rows@,
            rows@.len() as int,
            match home {
                Some(h) => Some(h@),
                None => None,
            },
        ),
{
    let ghost h: Option<Seq<char>> = match home {
        Some(h) => Some(h@),
        None => None,
    };
    let mut out: Vec<FilesystemUsage> = Vec::new();
    let mut i: usize = 0;
    assert(views(out@) =~= Seq::<UsageView>::empty());
    while i < rows.len()
        invariant
            i <= rows@.len(),
            h == match home {
                Some(h) => Some(h@),
                None => None,
            },
            views(out@) == usages(rows@, i as int, h),
        decreases rows@.len() - i,
    {
        let r: &FsRow = &rows[i];
        let u = FilesystemUsage {
            path: shorten_path_display(r.mount.as_str(), home),
            free_bytes: r.free,
            total_bytes: r.total,
            is_default: r.is_default,
            open_torrents: r.open_torrents,
        };
        place_usage(&mut out, u);
        i += 1;
    }
    out
}

/// The filesystems in use, as shown: those of the directory for new torrents and of the
/// directories of running torrents, one row for each filesystem.
pub fn collect_filesystem_usage(
    default_root: Option<FsProbe>,
    open_roots: Vec<FsProbe>,
    home: Option<&str>,
) -> (out: Vec<FilesystemUsage>)
    ensures
        views(out@) == ({
            let rows = filesystems(default_root, open_roots@, open_roots@.len() as int);
            usages(
                rows,
                rows.len() as int,
                match home {
                    Some(h) => Some(h@),
                    None => None,
                },
            )
        }),
{
    let mut rows: Vec<FsRow> = Vec::new();
    let ghost first = default_root;
    if let Some(p) = default_root {
        touch(&mut rows, p, true, false);
    }
    let ghost roots = open_roots@;
    for p in it: open_roots
        invariant
            it.seq() == roots,
            rows@ == filesystems(first, roots, it.index() as int),
    {
        touch(&mut rows, p, false, true);
    }
    filesystem_usage(&rows, home)
}

/// A thread's name is cut behind its fifteenth character, and is known by what is left.
pub proof fn cut_names_are_known(full: Seq<char>, more: Seq<char>)
    ensures
        full.len() <= 15 ==> cut_name(full) == full,
        full.len() > 15 ==> cut_name(full).len() == 15 && has_prefix(full, cut_name(full)),
        seems(full, full),
        seems(cut_name(full), full),
        seems(full + more, full),
        seems(more, full) ==> has_prefix(more, full) || has_prefix(more, cut_name(full)),
{
    assert(full.subrange(0, full.len() as int) =~= full);
    let c = cut_name(full);
    assert(c.subrange(0, c.len() as int) =~= c);
    assert((full + more).subrange(0, full.len() as int) =~= full);
}

/// Dashes are shown as spaces, and every other character as it is.
pub proof fn dashes_are_shown_as_spaces(s: Seq<char>, i: int)
    requires
        0 <= i < s.len(),
    ensures
        spaced(s).len() == s.len(),
        s[i] == '-' ==> spaced(s)[i] == ' ',
        s[i] != '-' ==> spaced(s)[i] == s[i],
{
}

proof fn another_name(s: Seq<char>, p: Seq<char>, i: int)
    requires
        0 <= i < s.len(),
        i < p.len(),
        i < 15,
        s[i] != p[i],
    ensures
        !has_prefix(s, p),
        !has_prefix(s, cut_name(p)),
        !seems(s, p),
        s != p,
{
    if has_prefix(s, p) {
        assert(s.subrange(0, p.len() as int)[i] == p[i]);
    }
    let c = cut_name(p);
    if has_prefix(s, c) {
        assert(s.subrange(0, c.len() as int)[i] == c[i]);
    }
}

/// Threads are told what they do by how their names begin.
pub proof fn threads_are_told_by_their_names(rest: Seq<char>)
    ensures
        worker_label("seedchamp-io"@ + rest) == Some("peer i/o"@),
        worker_label("seedchamp-acc"@ + rest) == Some("accept"@),
        worker_label("seedchamp-trk"@ + rest) == Some("tracker"@),
        worker_label("seedchamp-hash"@ + rest) == Some("piece hash"@),
{
    reveal_strlit("seedchamp-io");
    reveal_strlit("seedchamp-acc");
    reveal_strlit("seedchamp-trk");
    reveal_strlit("seedchamp-block");
    reveal_strlit("seedchamp-bloc");
    reveal_strlit("seedchamp-hash");
    let io = "seedchamp-io"@;
    let acc = "seedchamp-acc"@;
    let trk = "seedchamp-trk"@;
    let hash = "seedchamp-hash"@;
    cut_names_are_known(io, rest);
    cut_names_are_known(acc, rest);
    cut_names_are_known(trk, rest);
    cut_names_are_known(hash, rest);
    another_name(acc + rest, io, 10);
    another_name(trk + rest, io, 10);
    another_name(trk + rest, acc, 10);
    another_name(hash + rest, io, 10);
    another_name(hash + rest, acc, 10);
    another_name(hash + rest, trk, 10);
    another_name(hash + rest, "seedchamp-block"@, 10);
    another_name(hash + rest, "seedchamp-bloc"@, 10);
}

/// The threads that write are told apart by how they write.
pub proof fn writing_threads_are_told_apart()
    ensures
        worker_label("seedchamp-disk-uring"@) == Some("disk (io_uring)"@),
        worker_label("seedchamp-disk-aio"@) == Some("disk (aio)"@),
        worker_label("seedchamp-disk"@) == Some("disk (thread)"@),
{
    reveal_strlit("seedchamp-io");
    reveal_strlit("seedchamp-acc");
    reveal_strlit("seedchamp-trk");
    reveal_strlit("seedchamp-block");
    reveal_strlit("seedchamp-bloc");
    reveal_strlit("seedchamp-hash");
    reveal_strlit("seedchamp-disk-uring");
    reveal_strlit("seedchamp-disk-aio");
    reveal_strlit("seedchamp-disk");
    let uring = "seedchamp-disk-uring"@;
    let aio = "seedchamp-disk-aio"@;
    let plain = "seedchamp-disk"@;
    another_name(uring, "seedchamp-io"@, 10);
    another_name(uring, "seedchamp-acc"@, 10);
    another_name(uring, "seedchamp-trk"@, 10);
    another_name(uring, "seedchamp-block"@, 10);
    another_name(uring, "seedchamp-bloc"@, 10);
    another_name(uring, "seedchamp-hash"@, 10);
    another_name(aio, "seedchamp-io"@, 10);
    another_name(aio, "seedchamp-acc"@, 10);
    another_name(aio, "seedchamp-trk"@, 10);
    another_name(aio, "seedchamp-block"@, 10);
    another_name(aio, "seedchamp-bloc"@, 10);
    another_name(aio, "seedchamp-hash"@, 10);
    another_name(plain, "seedchamp-io"@, 10);
    another_name(plain, "seedchamp-acc"@, 10);
    another_name(plain, "seedchamp-trk"@, 10);
    another_name(plain, "seedchamp-block"@, 10);
    another_name(plain, "seedchamp-bloc"@, 10);
    another_name(plain, "seedchamp-hash"@, 10);
}

/// A thread of ours without a label of its own is shown by what follows `seedchamp-`, any other
/// by its name, and one without a name as unknown.
pub proof fn other_threads_are_shown_by_name(raw: Seq<char>)
    ensures
        trimmed(raw).len() == 0 ==> thread_label(raw) == "unknown"@,
        trimmed(raw).len() > 0 ==> (worker_label(lowered(trimmed(raw))) matches Some(l)
            ==> thread_label(raw) == l),
        trimmed(raw).len() > 0 && worker_label(lowered(trimmed(raw))) is None && !has_prefix(
            trimmed(raw),
            "seedchamp-"@,
        ) ==> thread_label(raw) == trimmed(raw),
        trimmed(raw).len() > 10 && worker_label(lowered(trimmed(raw))) is None && has_prefix(
            trimmed(raw),
            "seedchamp-"@,
        ) ==> thread_label(raw) == spaced(trimmed(raw).subrange(10, trimmed(raw).len() as int)),
{
    reveal_strlit("seedchamp-");
}

proof fn a_word_ends_before_white_space(w: Seq<char>, rest: Seq<char>, i: int)
    requires
        0 <= i <= w.len(),
        forall|j: int| 0 <= j < w.len() ==> !is_white(#[trigger] w[j]),
        rest.len() > 0 ==> is_white(rest[0]),
    ensures
        word_end(w + rest, i) == w.len(),
    decreases w.len() - i,
{
    let s = w + rest;
    if i < w.len() {
        assert(s[i] == w[i]);
        a_word_ends_before_white_space(w, rest, i + 1);
    } else if rest.len() > 0 {
        assert(s[i] == rest[0]);
    }
}

proof fn white_space_leads(a: Seq<char>, s: Seq<char>)
    requires
        forall|i: int| 0 <= i < a.len() ==> is_white(#[trigger] a[i]),
        s.len() > 0 ==> !is_white(s[0]),
    ensures
        trimmed_start(a + s) == s,
    decreases a.len(),
{
    if a.len() == 0 {
        assert(a + s =~= s);
    } else {
        assert((a + s)[0] == a[0]);
        let b = a.subrange(1, a.len() as int);
        assert((a + s).subrange(1, (a + s).len() as int) =~= b + s);
        white_space_leads(b, s);
    }
}

/// Words stand between white space, and are counted from zero.
pub proof fn words_stand_between_white_space(a: Seq<char>, w: Seq<char>, rest: Seq<char>, k: nat)
    requires
        forall|i: int| 0 <= i < a.len() ==> is_white(#[trigger] a[i]),
        w.len() > 0,
        forall|i: int| 0 <= i < w.len() ==> !is_white(#[trigger] w[i]),
        rest.len() > 0 ==> is_white(rest[0]),
    ensures
        word(a + w + rest, 0) == Some(w),
        word(a + w + rest, k + 1) == word(rest, k),
        word(a, k) is None,
{
    let t = w + rest;
    assert(a + w + rest =~= a + t);
    assert(t[0] == w[0]);
    white_space_leads(a, t);
    a_word_ends_before_white_space(w, rest, 0);
    assert(t.subrange(0, w.len() as int) =~= w);
    assert(t.subrange(w.len() as int, t.len() as int) =~= rest);
    let none = Seq::<char>::empty();
    white_space_leads(a, none);
    assert(a + none =~= a);
}

/// The time of a thread is the sum of the twelfth and thirteenth words behind its name, which
/// ends with the last bracket.
pub proof fn user_and_system_time_are_added(head: Seq<char>, after: Seq<char>, u: u64, s: u64)
    requires
        forall|i: int| 0 <= i < after.len() ==> #[trigger] after[i] != ')',
        word(after, 11) is Some,
        word(after, 12) is Some,
        parsed_number(word(after, 11)->0, 0xffff_ffff_ffff_ffff) == Some(u as nat),
        parsed_number(word(after, 12)->0, 0xffff_ffff_ffff_ffff) == Some(s as nat),
        u + s <= u64::MAX,
    ensures
        ticks_of(head.push(')') + after) == Some((u + s) as u64),
{
    let stat = head.push(')') + after;
    let p = head.len() as int;
    assert(stat[p] == ')');
    assert forall|j: int| p < j < stat.len() implies stat[j] != ')' by {
        assert(stat[j] == after[j - p - 1]);
    }
    crate::text::last_place_is_last(stat, ')', stat.len() as int, p);
    assert(stat.subrange(p + 1, stat.len() as int) =~= after);
}

/// Bytes are blocks times their size, as far as they can be counted.
pub proof fn blocks_have_their_size(blocks: u64, block_size: u64)
    ensures
        blocks * block_size <= 0xffff_ffff_ffff_ffff ==> spec_block_bytes(blocks, block_size)
            == blocks * block_size,
        blocks * block_size > 0xffff_ffff_ffff_ffff ==> spec_block_bytes(blocks, block_size)
            == 0xffff_ffff_ffff_ffff,
{
    assert(blocks * block_size >= 0) by (nonlinear_arith);
}

/// The home directory is shown as a tilde, with what is below it behind; other paths are shown
/// in full.
pub proof fn home_is_shown_as_a_tilde(home: Seq<char>, below: Seq<char>, s: Seq<char>)
    requires
        home.len() > 0,
    ensures
        short_path(home, Some(home)) == "~"@,
        short_path(home + "/"@ + below, Some(home)) == "~/"@ + below,
        short_path(s, None) == s,
        short_path(s, Some(Seq::<char>::empty())) == s,
        s != home && !has_prefix(s, home + "/"@) ==> short_path(s, Some(home)) == s,
{
    reveal_strlit("/");
    let t = home + "/"@ + below;
    assert(t.len() > home.len());
    assert(t.subrange(0, home.len() as int + 1) =~= home + "/"@);
    assert(t.subrange(home.len() as int + 1, t.len() as int) =~= below);
}

/// A filesystem is found by its number, the first of them.
pub proof fn filesystems_are_found_by_number(rows: Seq<FsRow>, dev: u64, i: int, j: int)
    requires
        0 <= i <= j < rows.len(),
    ensures
        ({
            let at = dev_at(rows, dev, i);
            &&& i <= at <= rows.len()
            &&& at < rows.len() ==> rows[at].dev == dev
            &&& j < at ==> rows[j].dev != dev
        }),
    decreases rows.len() - i,
{
    if rows[i].dev != dev {
        if i + 1 < rows.len() {
            filesystems_are_found_by_number(
                rows,
                dev,
                i + 1,
                if j > i {
                    j
                } else {
                    i + 1
                },
            );
        } else {
            reveal_with_fuel(dev_at, 2);
        }
    }
}

/// A directory is noted with the filesystem that it is on: its sizes are the latest, it stays
/// the default once it was, and each running torrent is counted once. The others stay as they
/// are, and so does everything where the system does not tell.
pub proof fn directories_are_noted_with_their_filesystem(
    s: Seq<FsRow>,
    p: FsProbe,
    is_default: bool,
    count_torrent: bool,
    j: int,
)
    ensures
        p.fragment_size == 0 ==> touched(s, p, is_default, count_torrent) == s,
        p.fragment_size > 0 ==> ({
            let t = touched(s, p, is_default, count_torrent);
            let at = dev_at(s, p.dev, 0);
            &&& t.len() == if at < s.len() {
                s.len() as int
            } else {
                s.len() as int + 1
            }
            &&& 0 <= j < s.len() && j != at ==> t[j] == s[j]
            &&& t[at].dev == p.dev
            &&& t[at].free == spec_block_bytes(p.blocks_available, p.fragment_size)
            &&& t[at].total == spec_block_bytes(p.blocks, p.fragment_size)
            &&& at < s.len() ==> t[at].mount == s[at].mount && t[at].is_default
                == (s[at].is_default || is_default)
            &&& at < s.len() && s[at].open_torrents < u32::MAX ==> t[at].open_torrents
                == s[at].open_torrents + if count_torrent {
                1int
            } else {
                0
            }
            &&& at == s.len() ==> t[at].mount == p.mount && t[at].is_default == is_default
                && t[at].open_torrents == if count_torrent {
                1int
            } else {
                0
            }
        }),
{
    if s.len() > 0 {
        filesystems_are_found_by_number(s, p.dev, 0, 0);
    }
}

/// The directory of new torrents is the default and counts no torrent; each running torrent
/// counts once where it is stored.
pub proof fn running_torrents_are_counted(default_root: FsProbe, roots: Seq<FsProbe>, n: int)
    requires
        0 <= n < roots.len(),
    ensures
        filesystems(None, roots, 0).len() == 0,
        filesystems(Some(default_root), roots, 0) == touched(
            Seq::<FsRow>::empty(),
            default_root,
            true,
            false,
        ),
        filesystems(Some(default_root), roots, n + 1) == touched(
            filesystems(Some(default_root), roots, n),
            roots[n],
            false,
            true,
        ),
{
}

/// One more is counted where it counts, as far as can be counted.
pub proof fn torrents_are_counted_one_by_one(n: u32)
    ensures
        one_more(n, false) == n,
        n < u32::MAX ==> one_more(n, true) == n + 1,
        one_more(u32::MAX, true) == u32::MAX,
{
}

/// A text comes before another by the first character in which they differ, and before one
/// that goes on where it ends.
pub proof fn texts_are_in_the_order_of_their_characters(
    p: Seq<char>,
    x: char,
    y: char,
    a: Seq<char>,
    b: Seq<char>,
)
    ensures
        x < y ==> text_before(p.push(x) + a, p.push(y) + b),
        x > y ==> !text_before(p.push(x) + a, p.push(y) + b),
        text_before(p, p.push(x) + a),
    decreases p.len(),
{
    let s = p.push(x) + a;
    let t = p.push(y) + b;
    if p.len() > 0 {
        let q = p.drop_first();
        texts_are_in_the_order_of_their_characters(q, x, y, a, b);
        assert(s.drop_first() =~= q.push(x) + a);
        assert(t.drop_first() =~= q.push(y) + b);
        assert(s[0] == p[0] && t[0] == p[0]);
    } else {
        assert(s[0] == x && t[0] == y);
    }
}

/// The filesystem of new torrents is shown first, then those with more torrents, then in the
/// order of their paths.
pub proof fn the_default_is_shown_first(a: UsageView, b: UsageView)
    ensures
        a.is_default && !b.is_default ==> shown_before(a, b) && !shown_before(b, a),
        a.is_default == b.is_default && a.open_torrents > b.open_torrents ==> shown_before(a, b)
            && !shown_before(b, a),
        a.is_default == b.is_default && a.open_torrents == b.open_torrents ==> (shown_before(a, b)
            <==> text_before(a.path, b.path)),
{
}

/// A filesystem is shown with its own sizes and torrents, under its short path.
pub proof fn filesystems_are_shown_as_they_are(r: FsRow, home: Option<Seq<char>>)
    ensures
        usage_of(r, home).path == short_path(r.mount@, home),
        usage_of(r, home).free_bytes == r.free,
        usage_of(r, home).total_bytes == r.total,
        usage_of(r, home).is_default == r.is_default,
        usage_of(r, home).open_torrents == r.open_torrents,
{
}

proof fn placed_with_the_others(s: Seq<UsageView>, u: UsageView)
    ensures
        placed_usage(s, u).to_multiset() == s.to_multiset().insert(u),
    decreases s.len(),
{
    broadcast use vstd::seq_lib::group_to_multiset_ensures;

    if s.len() > 0 && shown_before(u, s.last()) {
        let d = s.drop_last();
        placed_with_the_others(d, u);
        assert(s =~= d.push(s.last()));
        assert(s.to_multiset().insert(u) =~= d.to_multiset().insert(u).insert(s.last()));
    }
}

/// Each filesystem is shown, and each once.
pub proof fn no_filesystem_is_left_out(rows: Seq<FsRow>, n: int, home: Option<Seq<char>>)
    requires
        0 <= n < rows.len(),
    ensures
        usages(rows, 0, home).len() == 0,
        usages(rows, n + 1, home).to_multiset() == usages(rows, n, home).to_multiset().insert(
            usage_of(rows[n], home),
        ),
{
    placed_with_the_others(usages(rows, n, home), usage_of(rows[n], home));
}

} // verus!
