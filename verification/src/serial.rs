//! Serial ports: the device paths worth looking at, the listing of the
//! ports found, and what a read, write or monitoring step makes of what
//! the port reported.

use vstd::prelude::*;
use crate::error::PeriphError;
use crate::hid::{metadata_view, opt_text};
use crate::peripheral::{
    DeviceInfo, PeripheralKind, ReadResponse, WriteRequest, WriteResponse, chunk_response,
    describes, metadata_in_key_order, metadata_keys, read_response, truncated,
};
use crate::text::{
    ascii_lowercase, chars_less, contains_chars, contains_text, decimal_text,
    lemma_in_order_no_duplicates, lower_text, push_char, push_decimal, texts_in_order,
};

verus! {

/// The glob patterns under which serial devices appear on Unix systems
/// other than macOS.
pub open spec fn unix_pattern_texts() -> Seq<Seq<char>> {
    seq![
        "/dev/ttyUSB*"@,
        "/dev/ttyACM*"@,
        "/dev/ttyS*"@,
        "/dev/ttyAMA*"@,
        "/dev/rfcomm*"@,
        "/dev/tty.*"@,
        "/dev/cu.*"@,
    ]
}

/// The glob patterns under which serial devices appear on macOS.
pub open spec fn macos_pattern_texts() -> Seq<Seq<char>> {
    seq!["/dev/tty.*"@, "/dev/cu.*"@]
}

/// The glob patterns to search for serial devices; `macos` selects the
/// macOS set.
pub fn unix_patterns(macos: bool) -> (r: Vec<&'static str>)
    ensures
        r@.map_values(|p: &str| p@) == (if macos {
            macos_pattern_texts()
        } else {
            unix_pattern_texts()
        }),
{
    let mut r: Vec<&'static str> = Vec::new();
    if macos {
        r.push("/dev/tty.*");
        r.push("/dev/cu.*");
    } else {
        r.push("/dev/ttyUSB*");
        r.push("/dev/ttyACM*");
        r.push("/dev/ttyS*");
        r.push("/dev/ttyAMA*");
        r.push("/dev/rfcomm*");
        r.push("/dev/tty.*");
        r.push("/dev/cu.*");
    }
    assert(r@.map_values(|p: &str| p@) =~= (if macos {
        macos_pattern_texts()
    } else {
        unix_pattern_texts()
    }));
    r
}

/// The component standing for the root directory.
pub open spec fn root_component() -> Seq<char> {
    seq!['/']
}

/// Adds a finished segment to the components: empty segments vanish, and
/// so does `.` unless it is the first segment of a relative path.
pub open spec fn flush_segment(comps: Seq<Seq<char>>, seg: Seq<char>, first: bool) -> Seq<Seq<char>> {
    if seg.len() == 0 || (seg == seq!['.'] && !first) {
        comps
    } else {
        comps.push(seg)
    }
}

/// The components found in `s` so far, the segment being read, and
/// whether that segment is the first one.
pub open spec fn path_scan(s: Seq<char>) -> (Seq<Seq<char>>, Seq<char>, bool)
    decreases s.len(),
{
    if s.len() == 0 {
        (Seq::empty(), Seq::empty(), true)
    } else {
        let (comps, seg, first) = path_scan(s.drop_last());
        if s.last() == '/' {
            if s.len() == 1 {
                (seq![root_component()], Seq::empty(), false)
            } else {
                (flush_segment(comps, seg, first), Seq::empty(), false)
            }
        } else {
            (comps, seg.push(s.last()), first)
        }
    }
}

/// The components of a Unix path: `/` for the root, `.` for a leading
/// current directory, `..` for a parent, and the names in between.
pub open spec fn path_components(s: Seq<char>) -> Seq<Seq<char>> {
    let (comps, seg, first) = path_scan(s);
    flush_segment(comps, seg, first)
}

/// A component that is a plain name.
pub open spec fn is_name_component(c: Seq<char>) -> bool {
    c != root_component() && c != seq!['.'] && c != seq!['.', '.']
}

/// The sort key of one component: a tag ranking root before `.` before
/// `..` before names, and for a name its characters (shifted above the
/// tags) closed by a 0, so that a name sorts before any longer name it
/// begins.
pub open spec fn component_key(c: Seq<char>) -> Seq<u32> {
    if c == root_component() {
        seq![1u32]
    } else if c == seq!['.'] {
        seq![2u32]
    } else if c == seq!['.', '.'] {
        seq![3u32]
    } else {
        seq![4u32] + c.map_values(|ch: char| (ch as u32 + 5) as u32) + seq![0u32]
    }
}

/// The sort key of a component sequence: its components' keys in order.
pub open spec fn components_key(cs: Seq<Seq<char>>) -> Seq<u32>
    decreases cs.len(),
{
    if cs.len() == 0 {
        Seq::empty()
    } else {
        components_key(cs.drop_last()) + component_key(cs.last())
    }
}

/// The sort key of a path: its components' keys in order. Paths have
/// equal keys exactly when they have equal components
/// (`lemma_equal_keys_equal_components`).
pub open spec fn path_key(s: Seq<char>) -> Seq<u32> {
    components_key(path_components(s))
}

/// Lexicographic order on keys.
pub open spec fn key_less(a: Seq<u32>, b: Seq<u32>) -> bool
    decreases a.len(),
{
    if a.len() == 0 {
        b.len() > 0
    } else if b.len() == 0 {
        false
    } else if a[0] != b[0] {
        a[0] < b[0]
    } else {
        key_less(a.drop_first(), b.drop_first())
    }
}

/// The last component of a path when it is a name.
pub open spec fn path_file_name(s: Seq<char>) -> Option<Seq<char>> {
    let cs = path_components(s);
    if cs.len() > 0 && is_name_component(cs.last()) {
        Some(cs.last())
    } else {
        None
    }
}

/// The label of a serial port: its file name, or the whole path when it
/// has none.
pub open spec fn serial_label(s: Seq<char>) -> Seq<char> {
    match path_file_name(s) {
        Some(n) => n,
        None => s,
    }
}

/// `d` is the listing of the serial port at `path`.
pub open spec fn lists_serial_port(d: DeviceInfo, path: Seq<char>) -> bool {
    &&& d.id@ == path
    &&& d.kind == PeripheralKind::Serial
    &&& d.label@ == serial_label(path)
    &&& opt_text(d.path) == Some(path)
    &&& d.metadata@.len() == 0
}

/// The view of a sequence of character vectors.
pub open spec fn comps_view(v: Seq<Vec<char>>) -> Seq<Seq<char>> {
    v.map_values(|x: Vec<char>| x@)
}

proof fn lemma_key_less_irreflexive(a: Seq<u32>)
    ensures
        !key_less(a, a),
    decreases a.len(),
{
    if a.len() > 0 {
        lemma_key_less_irreflexive(a.drop_first());
    }
}

proof fn lemma_key_less_transitive(a: Seq<u32>, b: Seq<u32>, c: Seq<u32>)
    requires
        key_less(a, b),
        key_less(b, c),
    ensures
        key_less(a, c),
    decreases a.len(),
{
    if a.len() > 0 && b.len() > 0 && c.len() > 0 {
        if a[0] == b[0] && b[0] == c[0] {
            lemma_key_less_transitive(a.drop_first(), b.drop_first(), c.drop_first());
        }
    }
}

proof fn lemma_key_less_total(a: Seq<u32>, b: Seq<u32>)
    ensures
        a == b || key_less(a, b) || key_less(b, a),
        !(key_less(a, b) && key_less(b, a)),
    decreases a.len(),
{
    if a.len() > 0 && b.len() > 0 {
        lemma_key_less_total(a.drop_first(), b.drop_first());
        if a[0] == b[0] && a.drop_first() == b.drop_first() {
            assert(a =~= seq![a[0]] + a.drop_first());
            assert(b =~= seq![b[0]] + b.drop_first());
        }
    } else if a.len() == 0 && b.len() == 0 {
        assert(a =~= b);
    }
}

proof fn lemma_key_less_common_prefix(a: Seq<u32>, b: Seq<u32>, i: int)
    requires
        0 <= i <= a.len(),
        i <= b.len(),
        a.take(i) == b.take(i),
    ensures
        key_less(a, b) == key_less(a.skip(i), b.skip(i)),
    decreases i,
{
    if i > 0 {
        assert(a[0] == a.take(i)[0]);
        assert(b[0] == b.take(i)[0]);
        assert(a.drop_first().take(i - 1) =~= a.take(i).drop_first());
        assert(b.drop_first().take(i - 1) =~= b.take(i).drop_first());
        lemma_key_less_common_prefix(a.drop_first(), b.drop_first(), i - 1);
        assert(a.drop_first().skip(i - 1) =~= a.skip(i));
        assert(b.drop_first().skip(i - 1) =~= b.skip(i));
    } else {
        assert(a.skip(0) =~= a);
        assert(b.skip(0) =~= b);
    }
}

/// Compares two keys: whether `a` sorts before `b`, and whether they are
/// equal.
fn compare_keys(a: &Vec<u32>, b: &Vec<u32>) -> (r: (bool, bool))
    ensures
        r.0 == key_less(a@, b@),
        r.1 == (a@ == b@),
{
    let mut i: usize = 0;
    while i < a.len() && i < b.len()
        invariant
            i <= a@.len(),
            i <= b@.len(),
            a@.take(i as int) == b@.take(i as int),
        decreases a@.len() - i,
    {
        if a[i] != b[i] {
            proof {
                lemma_key_less_common_prefix(a@, b@, i as int);
                assert(a@.skip(i as int)[0] == a@[i as int]);
                assert(b@.skip(i as int)[0] == b@[i as int]);
            }
            return (a[i] < b[i], false);
        }
        assert(a@.take(i + 1) =~= a@.take(i as int).push(a@[i as int]));
        assert(b@.take(i + 1) =~= b@.take(i as int).push(b@[i as int]));
        i = i + 1;
    }
    proof {
        lemma_key_less_common_prefix(a@, b@, i as int);
        if i == a@.len() {
            assert(a@.take(i as int) =~= a@);
        }
        if i == b@.len() {
            assert(b@.take(i as int) =~= b@);
        }
    }
    let equal = a.len() == b.len();
    (a.len() < b.len(), equal)
}

/// Adds a finished segment to the components being built.
fn push_segment(comps: &mut Vec<Vec<char>>, seg: Vec<char>, first: bool)
    ensures
        comps_view(final(comps)@) == flush_segment(comps_view(old(comps)@), seg@, first),
{
    let is_dot = seg.len() == 1 && seg[0] == '.';
    assert(is_dot == (seg@ == seq!['.'])) by {
        if seg@.len() == 1 && seg@[0] == '.' {
            assert(seg@ =~= seq!['.']);
        }
    }
    if seg.len() == 0 || (is_dot && !first) {
        return;
    }
    let ghost before = comps@;
    comps.push(seg);
    assert(comps_view(comps@) =~= comps_view(before).push(seg@));
}

/// The components of the path `s`.
pub fn components_of(s: &str) -> (r: Vec<Vec<char>>)
    ensures
        comps_view(r@) == path_components(s@),
{
    let mut comps: Vec<Vec<char>> = Vec::new();
    let mut seg: Vec<char> = Vec::new();
    let mut first = true;
    let mut at_start = true;
    for c in it: s.chars()
        invariant
            it.seq() == s@,
            at_start == (it.index() == 0),
            (comps_view(comps@), seg@, first) == path_scan(s@.take(it.index())),
    {
        let ghost prefix = s@.take(it.index());
        let ghost next = s@.take(it.index() + 1);
        assert(next.drop_last() =~= prefix);
        assert(next.last() == c);
        if c == '/' {
            if at_start {
                let mut root: Vec<char> = Vec::new();
                root.push('/');
                let ghost before = comps@;
                comps.push(root);
                assert(prefix =~= Seq::<char>::empty());
                assert(comps_view(before).len() == 0);
                assert(before.len() == 0);
                assert(comps_view(comps@) =~= seq![root_component()]);
            } else {
                let finished = seg;
                push_segment(&mut comps, finished, first);
            }
            seg = Vec::new();
            first = false;
        } else {
            seg.push(c);
        }
        at_start = false;
    }
    assert(s@.take(s@.len() as int) =~= s@);
    push_segment(&mut comps, seg, first);
    comps
}

/// Appends the key of one component.
fn push_component_key(key: &mut Vec<u32>, c: &Vec<char>)
    ensures
        final(key)@ == old(key)@ + component_key(c@),
{
    let n = c.len();
    if n == 1 && c[0] == '/' {
        assert(c@ =~= root_component());
        key.push(1);
        return;
    }
    if n == 1 && c[0] == '.' {
        assert(c@ =~= seq!['.']);
        assert(c@ != root_component());
        key.push(2);
        return;
    }
    if n == 2 && c[0] == '.' && c[1] == '.' {
        assert(c@ =~= seq!['.', '.']);
        key.push(3);
        return;
    }
    assert(c@ != root_component() && c@ != seq!['.'] && c@ != seq!['.', '.']) by {
        if c@ == root_component() {
            assert(c@[0] == '/');
        }
        if c@ == seq!['.'] {
            assert(c@[0] == '.');
        }
        if c@ == seq!['.', '.'] {
            assert(c@[0] == '.' && c@[1] == '.');
        }
    }
    let ghost start = key@;
    key.push(4);
    let mut i: usize = 0;
    while i < n
        invariant
            n == c@.len(),
            i <= n,
            key@ == start + seq![4u32] + c@.take(i as int).map_values(
                |ch: char| (ch as u32 + 5) as u32,
            ),
        decreases n - i,
    {
        let ch = c[i];
        proof {
            vstd::utf8::char_is_scalar(ch);
        }
        assert((ch as u32) <= 0x10ffff);
        key.push(ch as u32 + 5);
        assert(c@.take(i + 1).map_values(|ch: char| (ch as u32 + 5) as u32) =~= c@.take(
            i as int,
        ).map_values(|ch: char| (ch as u32 + 5) as u32).push((ch as u32 + 5) as u32));
        i = i + 1;
    }
    key.push(0);
    assert(c@.take(n as int) =~= c@);
    assert(key@ =~= start + component_key(c@));
}

/// The sort key of the path `s`, with its file name when it ends in one.
pub fn path_key_of(s: &str) -> (r: (Vec<u32>, Option<Vec<char>>))
    ensures
        r.0@ == path_key(s@),
        match path_file_name(s@) {
            Some(n) => r.1 matches Some(v) && v@ == n,
            None => r.1 is None,
        },
{
    let comps = components_of(s);
    let ghost cs = comps_view(comps@);
    let mut key: Vec<u32> = Vec::new();
    let mut i: usize = 0;
    while i < comps.len()
        invariant
            cs == comps_view(comps@),
            cs == path_components(s@),
            i <= comps@.len(),
            key@ == components_key(cs.take(i as int)),
        decreases comps@.len() - i,
    {
        assert(cs.take(i + 1).drop_last() =~= cs.take(i as int));
        assert(cs.take(i + 1).last() == comps@[i as int]@);
        push_component_key(&mut key, &comps[i]);
        i = i + 1;
    }
    assert(cs.take(comps@.len() as int) =~= cs);
    let n = comps.len();
    if n == 0 {
        return (key, None);
    }
    let last = &comps[n - 1];
    assert(cs.last() == last@);
    let name_like = !((last.len() == 1 && (last[0] == '/' || last[0] == '.')) || (last.len() == 2
        && last[0] == '.' && last[1] == '.'));
    assert(name_like == is_name_component(last@)) by {
        if last@.len() == 1 {
            if last@[0] == '/' {
                assert(last@ =~= root_component());
            }
            if last@[0] == '.' {
                assert(last@ =~= seq!['.']);
            }
        }
        if last@.len() == 2 && last@[0] == '.' && last@[1] == '.' {
            assert(last@ =~= seq!['.', '.']);
        }
        if last@ == root_component() {
            assert(last@[0] == '/');
        }
        if last@ == seq!['.'] {
            assert(last@[0] == '.');
        }
        if last@ == seq!['.', '.'] {
            assert(last@[0] == '.' && last@[1] == '.');
        }
    }
    if name_like {
        let mut name: Vec<char> = Vec::new();
        let mut j: usize = 0;
        while j < last.len()
            invariant
                j <= last@.len(),
                name@ == last@.take(j as int),
            decreases last@.len() - j,
        {
            name.push(last[j]);
            assert(last@.take(j + 1) =~= last@.take(j as int).push(last@[j as int]));
            j = j + 1;
        }
        assert(last@.take(last@.len() as int) =~= last@);
        (key, Some(name))
    } else {
        (key, None)
    }
}

/// `k` is the first position in `paths` holding a path equal to
/// `paths[k]`.
pub open spec fn first_with_key(paths: Seq<Seq<char>>, k: int) -> bool {
    &&& 0 <= k < paths.len()
    &&& forall|m: int| 0 <= m < k ==> path_key(#[trigger] paths[m]) != path_key(paths[k])
}

/// `x` is a path of `ps` taken as first given: equal to `ps[k]` for a
/// `k` that no earlier equal path precedes.
pub open spec fn first_met(ps: Seq<Seq<char>>, x: Seq<char>) -> bool {
    exists|k: int| first_with_key(ps, k) && ps[k] == x
}

/// Some key in `ks` equals `key`.
pub open spec fn has_key(ks: Seq<Seq<u32>>, key: Seq<u32>) -> bool {
    exists|j: int| 0 <= j < ks.len() && ks[j] == key
}

/// `out` lists the distinct paths of `paths` in path order, each as it
/// was first given.
pub open spec fn sorted_distinct_paths(paths: Seq<Seq<char>>, out: Seq<Seq<char>>) -> bool {
    &&& forall|i: int, j: int|
        0 <= i < j < out.len() ==> key_less(path_key(#[trigger] out[i]), path_key(#[trigger] out[j]))
    &&& forall|k: int|
        0 <= k < paths.len() ==> has_key(out.map_values(|p: Seq<char>| path_key(p)), path_key(#[trigger] paths[k]))
    &&& forall|j: int| 0 <= j < out.len() ==> first_met(paths, #[trigger] out[j])
}

/// The texts of a sequence of strings.
pub open spec fn texts(v: Seq<String>) -> Seq<Seq<char>> {
    v.map_values(|p: String| p@)
}

/// The ids of a sequence of device listings.
pub open spec fn device_ids(v: Seq<DeviceInfo>) -> Seq<Seq<char>> {
    v.map_values(|d: DeviceInfo| d.id@)
}

/// The listing of the serial port at `path`.
pub fn serial_port_info(path: &String) -> (d: DeviceInfo)
    ensures
        lists_serial_port(d, path@),
{
    let (_, name) = path_key_of(path.as_str());
    let label = match name {
        Some(chars) => {
            let mut l = String::new();
            let mut i: usize = 0;
            while i < chars.len()
                invariant
                    i <= chars@.len(),
                    l@ == chars@.take(i as int),
                decreases chars@.len() - i,
            {
                push_char(&mut l, chars[i]);
                assert(chars@.take(i + 1) =~= chars@.take(i as int).push(chars@[i as int]));
                i = i + 1;
            }
            assert(chars@.take(chars@.len() as int) =~= chars@);
            l
        },
        None => path.clone(),
    };
    DeviceInfo {
        id: path.clone(),
        kind: PeripheralKind::Serial,
        label,
        path: Some(path.clone()),
        metadata: Vec::new(),
    }
}

/// The views of a sequence of keys.
pub open spec fn key_views(v: Seq<Vec<u32>>) -> Seq<Seq<u32>> {
    v.map_values(|k: Vec<u32>| k@)
}

/// Keys in strictly increasing order.
pub open spec fn strictly_sorted(ks: Seq<Seq<u32>>) -> bool {
    forall|a: int, b: int| 0 <= a < b < ks.len() ==> key_less(#[trigger] ks[a], #[trigger] ks[b])
}

/// Where `key` belongs among the sorted `keys`: the first position whose
/// key does not sort before it, and whether that key equals it.
fn find_slot(keys: &Vec<Vec<u32>>, key: &Vec<u32>) -> (r: (usize, bool))
    requires
        strictly_sorted(key_views(keys@)),
    ensures
        r.0 <= keys@.len(),
        forall|m: int| 0 <= m < r.0 ==> key_less(#[trigger] keys@[m]@, key@),
        r.1 ==> r.0 < keys@.len() && keys@[r.0 as int]@ == key@,
        !r.1 ==> forall|m: int| 0 <= m < keys@.len() ==> #[trigger] keys@[m]@ != key@,
        !r.1 ==> (r.0 < keys@.len() ==> key_less(key@, keys@[r.0 as int]@)),
{
    let mut pos: usize = 0;
    while pos < keys.len()
        invariant
            pos <= keys@.len(),
            strictly_sorted(key_views(keys@)),
            forall|m: int| 0 <= m < pos ==> key_less(#[trigger] keys@[m]@, key@),
        decreases keys@.len() - pos,
    {
        let (less, equal) = compare_keys(&keys[pos], key);
        if equal {
            return (pos, true);
        }
        if !less {
            proof {
                lemma_key_less_total(keys@[pos as int]@, key@);
                assert forall|m: int| 0 <= m < keys@.len() implies #[trigger] keys@[m]@ != key@ by {
                    if m < pos {
                        lemma_key_less_irreflexive(key@);
                    } else if m > pos {
                        let ks = key_views(keys@);
                        assert(ks[pos as int] == keys@[pos as int]@);
                        assert(ks[m] == keys@[m]@);
                        assert(key_less(ks[pos as int], ks[m]));
                        lemma_key_less_transitive(key@, keys@[pos as int]@, keys@[m]@);
                        lemma_key_less_irreflexive(key@);
                    }
                }
            }
            return (pos, false);
        }
        pos = pos + 1;
    }
    proof {
        assert forall|m: int| 0 <= m < keys@.len() implies #[trigger] keys@[m]@ != key@ by {
            lemma_key_less_irreflexive(key@);
        }
    }
    (pos, false)
}

proof fn lemma_insert_keeps_sorted(ks: Seq<Seq<u32>>, pos: int, key: Seq<u32>)
    requires
        strictly_sorted(ks),
        0 <= pos <= ks.len(),
        forall|m: int| 0 <= m < pos ==> key_less(#[trigger] ks[m], key),
        pos < ks.len() ==> key_less(key, ks[pos]),
    ensures
        strictly_sorted(ks.insert(pos, key)),
{
    let n = ks.insert(pos, key);
    assert forall|a: int, b: int| 0 <= a < b < n.len() implies key_less(#[trigger] n[a], #[trigger] n[b]) by {
        if b < pos {
            assert(n[a] == ks[a] && n[b] == ks[b]);
        } else if b == pos {
            assert(n[a] == ks[a]);
        } else if a > pos {
            assert(n[a] == ks[a - 1] && n[b] == ks[b - 1]);
        } else if a == pos {
            assert(n[b] == ks[b - 1]);
            if b - 1 > pos {
                lemma_key_less_transitive(key, ks[pos], ks[b - 1]);
            }
        } else {
            assert(n[a] == ks[a] && n[b] == ks[b - 1]);
            if b - 1 > pos {
                lemma_key_less_transitive(key, ks[pos], ks[b - 1]);
            }
            lemma_key_less_transitive(ks[a], key, ks[b - 1]);
        }
    }
}

/// The state of a listing in progress: `found` holds, in path order,
/// the distinct paths among the first `i` of `ps`, each as first met, and
/// `ks` their keys.
pub open spec fn listing_so_far(ps: Seq<Seq<char>>, i: int, ks: Seq<Seq<u32>>, found: Seq<Seq<char>>) -> bool {
    &&& ks.len() == found.len()
    &&& forall|j: int| 0 <= j < found.len() ==> #[trigger] ks[j] == path_key(found[j])
    &&& strictly_sorted(ks)
    &&& forall|k: int| 0 <= k < i ==> has_key(ks, path_key(#[trigger] ps[k]))
    &&& forall|j: int| 0 <= j < found.len() ==> first_met(ps, #[trigger] found[j])
}

proof fn lemma_listing_new_path(ps: Seq<Seq<char>>, i: int, ks: Seq<Seq<u32>>, found: Seq<Seq<char>>, pos: int)
    requires
        0 <= i < ps.len(),
        listing_so_far(ps, i, ks, found),
        0 <= pos <= ks.len(),
        forall|m: int| 0 <= m < pos ==> key_less(#[trigger] ks[m], path_key(ps[i])),
        pos < ks.len() ==> key_less(path_key(ps[i]), ks[pos]),
        !has_key(ks, path_key(ps[i])),
    ensures
        listing_so_far(ps, i + 1, ks.insert(pos, path_key(ps[i])), found.insert(pos, ps[i])),
{
    let key = path_key(ps[i]);
    let nk = ks.insert(pos, key);
    let nf = found.insert(pos, ps[i]);
    lemma_insert_keeps_sorted(ks, pos, key);
    assert(first_with_key(ps, i)) by {
        assert forall|m: int| 0 <= m < i implies path_key(#[trigger] ps[m]) != path_key(ps[i]) by {
            assert(has_key(ks, path_key(ps[m])));
        }
    }
    assert(first_met(ps, ps[i]));
    assert forall|j: int| 0 <= j < nf.len() implies #[trigger] nk[j] == path_key(nf[j]) by {
        if j < pos {
            assert(nk[j] == ks[j] && nf[j] == found[j]);
        } else if j > pos {
            assert(nk[j] == ks[j - 1] && nf[j] == found[j - 1]);
        }
    }
    assert forall|k: int| 0 <= k < i + 1 implies has_key(nk, path_key(#[trigger] ps[k])) by {
        if k == i {
            assert(nk[pos] == path_key(ps[k]));
        } else {
            assert(has_key(ks, path_key(ps[k])));
            let j = choose|j: int| 0 <= j < ks.len() && ks[j] == path_key(ps[k]);
            if j < pos {
                assert(nk[j] == ks[j]);
            } else {
                assert(nk[j + 1] == ks[j]);
            }
        }
    }
    assert forall|j: int| 0 <= j < nf.len() implies first_met(ps, #[trigger] nf[j]) by {
        if j < pos {
            assert(nf[j] == found[j]);
        } else if j > pos {
            assert(nf[j] == found[j - 1]);
        }
    }
}

proof fn lemma_listing_known_path(ps: Seq<Seq<char>>, i: int, ks: Seq<Seq<u32>>, found: Seq<Seq<char>>, pos: int)
    requires
        0 <= i < ps.len(),
        listing_so_far(ps, i, ks, found),
        0 <= pos < ks.len(),
        ks[pos] == path_key(ps[i]),
    ensures
        listing_so_far(ps, i + 1, ks, found),
{
    assert forall|k: int| 0 <= k < i + 1 implies has_key(ks, path_key(#[trigger] ps[k])) by {
        if k == i {
            assert(ks[pos] == path_key(ps[k]));
        }
    }
}

/// The listing of the serial ports found at `paths` (in the order the
/// search met them): each distinct path once, as first met, in path
/// order.
pub fn scan_serial_ports(paths: &Vec<String>) -> (r: Vec<DeviceInfo>)
    ensures
        forall|j: int| 0 <= j < r@.len() ==> lists_serial_port(#[trigger] r@[j], r@[j].id@),
        sorted_distinct_paths(texts(paths@), device_ids(r@)),
{
    let ghost ps = texts(paths@);
    let mut keys: Vec<Vec<u32>> = Vec::new();
    let mut found: Vec<String> = Vec::new();
    let mut i: usize = 0;
    assert(listing_so_far(ps, 0, key_views(keys@), texts(found@)));
    while i < paths.len()
        invariant
            ps == texts(paths@),
            i <= paths@.len(),
            listing_so_far(ps, i as int, key_views(keys@), texts(found@)),
        decreases paths@.len() - i,
    {
        let (key, _) = path_key_of(paths[i].as_str());
        assert(ps[i as int] == paths@[i as int]@);
        let (pos, same) = find_slot(&keys, &key);
        assert(key_views(keys@).len() == keys@.len());
        assert forall|m: int| 0 <= m < keys@.len() implies #[trigger] key_views(keys@)[m] == keys@[m]@ by {}
        if same {
            proof {
                lemma_listing_known_path(ps, i as int, key_views(keys@), texts(found@), pos as int);
            }
        } else {
            let ghost ks = key_views(keys@);
            let ghost fs = texts(found@);
            proof {
                assert(!has_key(ks, path_key(ps[i as int]))) by {
                    if has_key(ks, path_key(ps[i as int])) {
                        let j = choose|j: int| 0 <= j < ks.len() && ks[j] == path_key(ps[i as int]);
                        assert(keys@[j]@ == key@);
                    }
                }
                lemma_listing_new_path(ps, i as int, ks, fs, pos as int);
            }
            keys.insert(pos, key);
            found.insert(pos, paths[i].clone());
            assert(key_views(keys@) =~= ks.insert(pos as int, path_key(ps[i as int])));
            assert(texts(found@) =~= fs.insert(pos as int, ps[i as int]));
        }
        i = i + 1;
    }
    let mut devices: Vec<DeviceInfo> = Vec::new();
    let mut j: usize = 0;
    while j < found.len()
        invariant
            j <= found@.len(),
            devices@.len() == j,
            forall|m: int| 0 <= m < j ==> lists_serial_port(#[trigger] devices@[m], found@[m]@),
        decreases found@.len() - j,
    {
        devices.push(serial_port_info(&found[j]));
        j = j + 1;
    }
    proof {
        let out = device_ids(devices@);
        let fs = texts(found@);
        let ks = key_views(keys@);
        assert forall|m: int| 0 <= m < out.len() implies #[trigger] out[m] == fs[m] by {
            assert(lists_serial_port(devices@[m], found@[m]@));
        }
        assert(out =~= fs);
        assert forall|a: int, b: int| 0 <= a < b < out.len() implies key_less(path_key(#[trigger] out[a]), path_key(#[trigger] out[b])) by {
            assert(ks[a] == path_key(fs[a]));
            assert(ks[b] == path_key(fs[b]));
            assert(key_less(ks[a], ks[b]));
        }
        assert(out.map_values(|p: Seq<char>| path_key(p)) =~= ks);
        assert forall|m: int| 0 <= m < devices@.len() implies lists_serial_port(#[trigger] devices@[m], devices@[m].id@) by {
            assert(lists_serial_port(devices@[m], found@[m]@));
        }
    }
    devices
}

/// What a read from a serial port came back with.
#[derive(Debug)]
pub enum SerialRead {
    /// The port filled the first `count` bytes of `buffer`.
    Data { buffer: Vec<u8>, count: usize },
    /// The port's timeout passed before any byte arrived.
    TimedOut,
    /// The read failed.
    Failed(PeriphError),
}

/// The response to a one-off serial read: what arrived (nothing after a
/// timeout), or the failure.
pub fn read_from_serial(outcome: SerialRead) -> (r: Result<ReadResponse, PeriphError>)
    ensures
        match outcome {
            SerialRead::Data { buffer, count } => r matches Ok(resp) && describes(
                resp,
                count,
                truncated(buffer@, count as int),
            ),
            SerialRead::TimedOut => r matches Ok(resp) && describes(resp, 0, Seq::empty()),
            SerialRead::Failed(e) => r == Err::<ReadResponse, PeriphError>(e),
        },
{
    match outcome {
        SerialRead::Data { buffer, count } => Ok(read_response(buffer, count)),
        SerialRead::TimedOut => Ok(read_response(Vec::new(), 0)),
        SerialRead::Failed(e) => Err(e),
    }
}

/// The response to a serial write: the whole payload once it is written
/// and flushed, or the failure.
pub fn write_to_serial(request: &WriteRequest, outcome: Result<(), PeriphError>) -> (r: Result<WriteResponse, PeriphError>)
    ensures
        match outcome {
            Ok(()) => r matches Ok(resp) && resp.bytes_written == request.data@.len(),
            Err(e) => r == Err::<WriteResponse, PeriphError>(e),
        },
{
    match outcome {
        Ok(()) => Ok(WriteResponse { bytes_written: request.data.len() }),
        Err(e) => Err(e),
    }
}

/// One step of monitoring a serial port: the chunk to hand on, nothing
/// when the read brought no bytes or timed out, or the failure that ends
/// the session.
pub fn monitor_serial(outcome: SerialRead) -> (r: Result<Option<ReadResponse>, PeriphError>)
    requires
        outcome matches SerialRead::Data { buffer, count } ==> count <= buffer@.len(),
    ensures
        match outcome {
            SerialRead::Data { buffer, count } => if count == 0 {
                r matches Ok(None)
            } else {
                r matches Ok(Some(resp)) && describes(resp, count, buffer@.take(count as int))
            },
            SerialRead::TimedOut => r matches Ok(None),
            SerialRead::Failed(e) => r == Err::<Option<ReadResponse>, PeriphError>(e),
        },
{
    match outcome {
        SerialRead::Data { buffer, count } => if count == 0 {
            Ok(None)
        } else {
            Ok(Some(chunk_response(buffer, count)))
        },
        SerialRead::TimedOut => Ok(None),
        SerialRead::Failed(e) => Err(e),
    }
}

/// The first and last port numbers probed on Windows.
pub const FIRST_WINDOWS_PORT: u16 = 1;

pub const LAST_WINDOWS_PORT: u16 = 256;

/// The name of a Windows serial port: `COM` and its number.
pub fn windows_port_name(index: u16) -> (r: String)
    ensures
        r@ == "COM"@ + decimal_text(index as nat),
{
    let mut r = String::from_str("COM");
    push_decimal(&mut r, index as u64);
    r
}

/// `d` lists the Windows port `port_name`, found in state `state`.
pub open spec fn lists_windows_port(d: DeviceInfo, port_name: Seq<char>, state: Seq<char>) -> bool {
    &&& d.id@ == port_name
    &&& d.kind == PeripheralKind::Serial
    &&& d.label@ == port_name
    &&& opt_text(d.path) == Some(port_name)
    &&& metadata_view(d.metadata@) == seq![("state"@, state)]
}

/// The listing of a Windows serial port in the given state.
pub fn windows_device_info(port_name: &str, state: &str) -> (d: DeviceInfo)
    ensures
        lists_windows_port(d, port_name@, state@),
        metadata_in_key_order(d.metadata@),
{
    let mut metadata: Vec<(String, String)> = Vec::new();
    metadata.push((String::from_str("state"), String::from_str(state)));
    let d = DeviceInfo {
        id: String::from_str(port_name),
        kind: PeripheralKind::Serial,
        label: String::from_str(port_name),
        path: Some(String::from_str(port_name)),
        metadata,
    };
    assert(metadata_view(d.metadata@) =~= seq![("state"@, state@)]);
    assert(metadata_keys(d.metadata@).len() == 1);
    assert(texts_in_order(metadata_keys(d.metadata@)));
    proof {
        lemma_in_order_no_duplicates(metadata_keys(d.metadata@));
    }
    d
}

/// An error message that suggests the port exists but is in use or
/// closed to us.
pub open spec fn suggests_port_exists(message: Seq<char>) -> bool {
    let m = lower_text(message);
    contains_text(m, "access is denied"@) || contains_text(m, "permission denied"@)
        || contains_text(m, "resource busy"@)
}

/// Whether a failure to open a Windows port still suggests that the port
/// exists.
pub fn windows_port_likely_exists(message: &str) -> (r: bool)
    ensures
        r == suggests_port_exists(message@),
{
    let lower = ascii_lowercase(message);
    contains_chars(&lower, "access is denied") || contains_chars(&lower, "permission denied")
        || contains_chars(&lower, "resource busy")
}

/// What probing a Windows port found: the listing of an available port,
/// of a busy or denied one, or nothing when opening failed otherwise.
/// `opened` holds the failure's message when opening failed.
pub fn windows_probe(port_name: &str, opened: Result<(), String>) -> (r: Option<DeviceInfo>)
    ensures
        match opened {
            Ok(()) => r matches Some(d) && lists_windows_port(d, port_name@, "available"@),
            Err(m) => if suggests_port_exists(m@) {
                r matches Some(d) && lists_windows_port(d, port_name@, "busy-or-denied"@)
            } else {
                r is None
            },
        },
{
    match opened {
        Ok(()) => Some(windows_device_info(port_name, "available")),
        Err(m) => if windows_port_likely_exists(m.as_str()) {
            Some(windows_device_info(port_name, "busy-or-denied"))
        } else {
            None
        },
    }
}

proof fn lemma_components_key_front(cs: Seq<Seq<char>>)
    requires
        cs.len() > 0,
    ensures
        components_key(cs) == component_key(cs[0]) + components_key(cs.drop_first()),
    decreases cs.len(),
{
    if cs.len() == 1 {
        assert(cs.drop_last() =~= Seq::<Seq<char>>::empty());
        assert(cs.drop_first() =~= Seq::<Seq<char>>::empty());
        assert(components_key(cs.drop_last()) =~= Seq::<u32>::empty());
        assert(components_key(cs) =~= component_key(cs[0]) + Seq::<u32>::empty());
    } else {
        lemma_components_key_front(cs.drop_last());
        assert(cs.drop_last()[0] == cs[0]);
        assert(cs.drop_last().drop_first() =~= cs.drop_first().drop_last());
        assert(cs.drop_first().last() == cs.last());
        assert(components_key(cs) =~= component_key(cs[0]) + components_key(cs.drop_first()));
    }
}

proof fn lemma_component_key_shape(c: Seq<char>)
    ensures
        component_key(c).len() > 0,
        component_key(c)[0] == 1 ==> component_key(c).len() == 1 && c == root_component(),
        component_key(c)[0] == 2 ==> component_key(c).len() == 1 && c == seq!['.'],
        component_key(c)[0] == 3 ==> component_key(c).len() == 1 && c == seq!['.', '.'],
        component_key(c)[0] == 4 ==> {
            &&& component_key(c).len() == c.len() + 2
            &&& component_key(c).last() == 0
            &&& forall|i: int| 1 <= i < c.len() + 1 ==> component_key(c)[i] >= 5
        },
        1 <= component_key(c)[0] <= 4,
{
    if c != root_component() && c != seq!['.'] && c != seq!['.', '.'] {
        let k = component_key(c);
        assert forall|i: int| 1 <= i < c.len() + 1 implies k[i] >= 5 by {
            assert(k[i] == (c[i - 1] as u32 + 5) as u32);
            vstd::utf8::char_is_scalar(c[i - 1]);
        }
    }
}

proof fn lemma_component_key_injective(a: Seq<char>, b: Seq<char>)
    requires
        component_key(a) == component_key(b),
    ensures
        a == b,
{
    lemma_component_key_shape(a);
    lemma_component_key_shape(b);
    let k = component_key(a);
    if k[0] == 4 {
        assert forall|i: int| 0 <= i < a.len() implies a[i] == b[i] by {
            assert(k[i + 1] == (a[i] as u32 + 5) as u32);
            assert(k[i + 1] == (b[i] as u32 + 5) as u32);
            vstd::utf8::char_is_scalar(a[i]);
            vstd::utf8::char_is_scalar(b[i]);
            vstd::utf8::char_u32_cast(a[i], a[i] as u32);
            vstd::utf8::char_u32_cast(b[i], b[i] as u32);
        }
        assert(a =~= b);
    }
}

proof fn lemma_component_keys_split(a: Seq<char>, b: Seq<char>, ra: Seq<u32>, rb: Seq<u32>)
    requires
        component_key(a) + ra == component_key(b) + rb,
    ensures
        a == b,
        ra == rb,
{
    let x = component_key(a);
    let y = component_key(b);
    lemma_component_key_shape(a);
    lemma_component_key_shape(b);
    assert(x[0] == (x + ra)[0]);
    assert(y[0] == (y + rb)[0]);
    if x.len() < y.len() {
        assert((x + ra)[x.len() - 1] == x.last());
        assert((y + rb)[x.len() - 1] == y[x.len() - 1]);
    } else if y.len() < x.len() {
        assert((y + rb)[y.len() - 1] == y.last());
        assert((x + ra)[y.len() - 1] == x[y.len() - 1]);
    }
    assert(x.len() == y.len());
    assert(x =~= (x + ra).take(x.len() as int));
    assert(y =~= (y + rb).take(y.len() as int));
    assert(x == y);
    lemma_component_key_injective(a, b);
    assert(ra =~= (x + ra).skip(x.len() as int));
    assert(rb =~= (y + rb).skip(y.len() as int));
}

proof fn lemma_components_key_injective(a: Seq<Seq<char>>, b: Seq<Seq<char>>)
    requires
        components_key(a) == components_key(b),
    ensures
        a == b,
    decreases a.len(),
{
    if a.len() == 0 && b.len() == 0 {
        assert(a =~= b);
    } else if a.len() == 0 {
        lemma_components_key_front(b);
        lemma_component_key_shape(b[0]);
    } else if b.len() == 0 {
        lemma_components_key_front(a);
        lemma_component_key_shape(a[0]);
    } else {
        lemma_components_key_front(a);
        lemma_components_key_front(b);
        lemma_component_keys_split(a[0], b[0], components_key(a.drop_first()), components_key(b.drop_first()));
        lemma_components_key_injective(a.drop_first(), b.drop_first());
        assert(a =~= seq![a[0]] + a.drop_first());
        assert(b =~= seq![b[0]] + b.drop_first());
    }
}

/// Two paths have the same sort key exactly when they have the same
/// components.
pub proof fn lemma_equal_keys_equal_components(a: Seq<char>, b: Seq<char>)
    ensures
        (path_key(a) == path_key(b)) == (path_components(a) == path_components(b)),
{
    if path_key(a) == path_key(b) {
        lemma_components_key_injective(path_components(a), path_components(b));
    }
}

/// How components rank: root, then `.`, then `..`, then names.
pub open spec fn component_rank(c: Seq<char>) -> int {
    if c == root_component() {
        1
    } else if c == seq!['.'] {
        2
    } else if c == seq!['.', '.'] {
        3
    } else {
        4
    }
}

/// The order of components: by rank, and names by their characters.
pub open spec fn component_less(a: Seq<char>, b: Seq<char>) -> bool {
    component_rank(a) < component_rank(b) || (component_rank(a) == 4 && component_rank(b) == 4
        && chars_less(a, b))
}

/// The order of paths: lexicographic over their components.
pub open spec fn components_less(a: Seq<Seq<char>>, b: Seq<Seq<char>>) -> bool
    decreases a.len(),
{
    if a.len() == 0 {
        b.len() > 0
    } else if b.len() == 0 {
        false
    } else if a[0] != b[0] {
        component_less(a[0], b[0])
    } else {
        components_less(a.drop_first(), b.drop_first())
    }
}

/// The shifted characters of a name, as they appear in its key.
pub open spec fn shifted(c: Seq<char>) -> Seq<u32> {
    c.map_values(|ch: char| (ch as u32 + 5) as u32)
}

proof fn lemma_shifted_names_order(c: Seq<char>, d: Seq<char>, r1: Seq<u32>, r2: Seq<u32>)
    requires
        c != d,
    ensures
        key_less(shifted(c) + seq![0u32] + r1, shifted(d) + seq![0u32] + r2) == chars_less(c, d),
    decreases c.len(),
{
    let x = shifted(c) + seq![0u32] + r1;
    let y = shifted(d) + seq![0u32] + r2;
    if c.len() == 0 {
        assert(d.len() > 0) by {
            if d.len() == 0 {
                assert(c =~= d);
            }
        }
        assert(x[0] == 0);
        assert(y[0] == (d[0] as u32 + 5) as u32);
        vstd::utf8::char_is_scalar(d[0]);
    } else if d.len() == 0 {
        assert(y[0] == 0);
        assert(x[0] == (c[0] as u32 + 5) as u32);
        vstd::utf8::char_is_scalar(c[0]);
    } else {
        vstd::utf8::char_is_scalar(c[0]);
        vstd::utf8::char_is_scalar(d[0]);
        assert(x[0] == (c[0] as u32 + 5) as u32);
        assert(y[0] == (d[0] as u32 + 5) as u32);
        if c[0] == d[0] {
            assert(c.drop_first() != d.drop_first()) by {
                if c.drop_first() == d.drop_first() {
                    assert(c =~= seq![c[0]] + c.drop_first());
                    assert(d =~= seq![d[0]] + d.drop_first());
                }
            }
            lemma_shifted_names_order(c.drop_first(), d.drop_first(), r1, r2);
            assert(x.drop_first() =~= shifted(c.drop_first()) + seq![0u32] + r1);
            assert(y.drop_first() =~= shifted(d.drop_first()) + seq![0u32] + r2);
        } else {
            vstd::utf8::char_u32_cast(c[0], c[0] as u32);
            vstd::utf8::char_u32_cast(d[0], d[0] as u32);
        }
    }
}

proof fn lemma_component_keys_order(a: Seq<char>, b: Seq<char>, ra: Seq<u32>, rb: Seq<u32>)
    requires
        a != b,
    ensures
        key_less(component_key(a) + ra, component_key(b) + rb) == component_less(a, b),
{
    let x = component_key(a) + ra;
    let y = component_key(b) + rb;
    lemma_component_key_shape(a);
    lemma_component_key_shape(b);
    assert(x[0] == component_key(a)[0]);
    assert(y[0] == component_key(b)[0]);
    if component_rank(a) == 4 && component_rank(b) == 4 {
        assert(component_key(a) == seq![4u32] + shifted(a) + seq![0u32]);
        assert(component_key(b) == seq![4u32] + shifted(b) + seq![0u32]);
        assert(x.drop_first() =~= shifted(a) + seq![0u32] + ra);
        assert(y.drop_first() =~= shifted(b) + seq![0u32] + rb);
        lemma_shifted_names_order(a, b, ra, rb);
    }
}

/// Paths sort by key exactly as they sort by components.
pub proof fn lemma_key_order_is_component_order(a: Seq<Seq<char>>, b: Seq<Seq<char>>)
    ensures
        key_less(components_key(a), components_key(b)) == components_less(a, b),
    decreases a.len(),
{
    if a.len() == 0 && b.len() == 0 {
        assert(components_key(a) =~= Seq::<u32>::empty());
        assert(components_key(b) =~= Seq::<u32>::empty());
    } else if a.len() == 0 {
        lemma_components_key_front(b);
        lemma_component_key_shape(b[0]);
        assert(components_key(a) =~= Seq::<u32>::empty());
    } else if b.len() == 0 {
        lemma_components_key_front(a);
        lemma_component_key_shape(a[0]);
        assert(components_key(b) =~= Seq::<u32>::empty());
    } else {
        lemma_components_key_front(a);
        lemma_components_key_front(b);
        let ra = components_key(a.drop_first());
        let rb = components_key(b.drop_first());
        if a[0] == b[0] {
            let x = component_key(a[0]);
            lemma_key_order_is_component_order(a.drop_first(), b.drop_first());
            assert((x + ra).take(x.len() as int) =~= (x + rb).take(x.len() as int));
            lemma_key_less_common_prefix(x + ra, x + rb, x.len() as int);
            assert((x + ra).skip(x.len() as int) =~= ra);
            assert((x + rb).skip(x.len() as int) =~= rb);
        } else {
            lemma_component_keys_order(a[0], b[0], ra, rb);
        }
    }
}

/// Some path of `out` has the components `cs`.
pub open spec fn lists_components(out: Seq<Seq<char>>, cs: Seq<Seq<char>>) -> bool {
    exists|j: int| 0 <= j < out.len() && path_components(out[j]) == cs
}

/// A serial listing is in component order, and every path searched has
/// its components among those listed.
pub proof fn lemma_listing_in_component_order(paths: Seq<Seq<char>>, out: Seq<Seq<char>>)
    requires
        sorted_distinct_paths(paths, out),
    ensures
        forall|i: int, j: int|
            0 <= i < j < out.len() ==> components_less(
                path_components(#[trigger] out[i]),
                path_components(#[trigger] out[j]),
            ),
        forall|k: int| 0 <= k < paths.len() ==> lists_components(out, path_components(#[trigger] paths[k])),
{
    assert forall|i: int, j: int| 0 <= i < j < out.len() implies components_less(
        path_components(#[trigger] out[i]),
        path_components(#[trigger] out[j]),
    ) by {
        assert(key_less(path_key(out[i]), path_key(out[j])));
        lemma_key_order_is_component_order(path_components(out[i]), path_components(out[j]));
    }
    assert forall|k: int| 0 <= k < paths.len() implies lists_components(out, path_components(#[trigger] paths[k])) by {
        let keys = out.map_values(|p: Seq<char>| path_key(p));
        assert(has_key(keys, path_key(paths[k])));
        let j = choose|j: int| 0 <= j < keys.len() && keys[j] == path_key(paths[k]);
        assert(keys[j] == path_key(out[j]));
        lemma_equal_keys_equal_components(out[j], paths[k]);
        assert(path_components(out[j]) == path_components(paths[k]));
    }
}

/// A glob pattern that ends in a single `*`: it matches the paths that
/// begin with the text before the `*` and go on without a `/`.
pub open spec fn trailing_star_matches(pattern: Seq<char>, path: Seq<char>) -> bool {
    &&& pattern.len() > 0
    &&& pattern.last() == '*'
    &&& path.len() >= pattern.len() - 1
    &&& path.take(pattern.len() - 1) == pattern.drop_last()
    &&& forall|i: int| pattern.len() - 1 <= i < path.len() ==> path[i] != '/'
}

/// The device-name families of serial ports on Unix systems: USB serial
/// adapters, USB CDC-ACM devices, on-board UARTs, ARM AMBA UARTs,
/// Bluetooth RFCOMM links, and the macOS call-in and call-out devices.
pub open spec fn serial_device_families() -> Seq<Seq<char>> {
    seq![
        "/dev/ttyUSB"@,
        "/dev/ttyACM"@,
        "/dev/ttyS"@,
        "/dev/ttyAMA"@,
        "/dev/rfcomm"@,
        "/dev/tty."@,
        "/dev/cu."@,
    ]
}

/// Every serial device of every family, with any name after the family
/// prefix, is found by the search pattern for that family; on macOS the
/// call-in and call-out devices are.
pub proof fn lemma_patterns_find_every_family(family: int, name: Seq<char>)
    requires
        0 <= family < 7,
        forall|k: int| 0 <= k < name.len() ==> name[k] != '/',
    ensures
        unix_pattern_texts().len() == 7,
        trailing_star_matches(unix_pattern_texts()[family], serial_device_families()[family] + name),
        family >= 5 ==> trailing_star_matches(
            macos_pattern_texts()[family - 5],
            serial_device_families()[family] + name,
        ),
{
    reveal_strlit("/dev/ttyUSB*");
    reveal_strlit("/dev/ttyACM*");
    reveal_strlit("/dev/ttyS*");
    reveal_strlit("/dev/ttyAMA*");
    reveal_strlit("/dev/rfcomm*");
    reveal_strlit("/dev/tty.*");
    reveal_strlit("/dev/cu.*");
    reveal_strlit("/dev/ttyUSB");
    reveal_strlit("/dev/ttyACM");
    reveal_strlit("/dev/ttyS");
    reveal_strlit("/dev/ttyAMA");
    reveal_strlit("/dev/rfcomm");
    reveal_strlit("/dev/tty.");
    reveal_strlit("/dev/cu.");
    let pat = unix_pattern_texts()[family];
    let fam = serial_device_families()[family];
    let path = fam + name;
    assert(pat.drop_last() =~= fam);
    assert(pat.last() == '*');
    assert(path.take(pat.len() - 1) =~= fam);
    assert forall|i: int| pat.len() - 1 <= i < path.len() implies path[i] != '/' by {
        assert(path[i] == name[i - fam.len()]);
    }
    if family >= 5 {
        let mpat = macos_pattern_texts()[family - 5];
        assert(mpat =~= pat);
    }
}

proof fn lemma_scan_name(s: Seq<char>, name: Seq<char>)
    requires
        s.len() > 0,
        forall|k: int| 0 <= k < name.len() ==> name[k] != '/',
    ensures
        path_scan(s + name) == (path_scan(s).0, path_scan(s).1 + name, path_scan(s).2),
    decreases name.len(),
{
    if name.len() == 0 {
        assert(s + name =~= s);
        assert(path_scan(s).1 + name =~= path_scan(s).1);
    } else {
        let shorter = name.drop_last();
        lemma_scan_name(s, shorter);
        assert((s + name).drop_last() =~= s + shorter);
        assert((s + name).last() == name.last());
        assert(path_scan(s).1 + shorter.push(name.last()) =~= path_scan(s).1 + name);
        assert(shorter.push(name.last()) =~= name);
    }
}

/// A port at `/dev/<name>` has the components root, `dev` and the name,
/// and is labelled by its name.
pub proof fn lemma_dev_port_label(name: Seq<char>)
    requires
        name.len() > 0,
        forall|k: int| 0 <= k < name.len() ==> name[k] != '/',
        name != seq!['.'],
        name != seq!['.', '.'],
    ensures
        path_components("/dev/"@ + name) == seq![root_component(), "dev"@, name],
        serial_label("/dev/"@ + name) == name,
{
    reveal_strlit("/dev/");
    reveal_strlit("dev");
    let d = "/dev/"@;
    assert(d.drop_last().drop_last().drop_last().drop_last() =~= seq!['/']);
    assert(seq!['/'].drop_last() =~= Seq::<char>::empty());
    assert(path_scan(seq!['/']) == (seq![root_component()], Seq::<char>::empty(), false));
    assert(d.drop_last().drop_last().drop_last() =~= seq!['/', 'd']);
    assert(seq!['/', 'd'].drop_last() =~= seq!['/']);
    assert(path_scan(seq!['/', 'd']) == (seq![root_component()], seq!['d'], false));
    assert(d.drop_last().drop_last() =~= seq!['/', 'd', 'e']);
    assert(seq!['/', 'd', 'e'].drop_last() =~= seq!['/', 'd']);
    assert(seq!['d'].push('e') =~= seq!['d', 'e']);
    assert(path_scan(seq!['/', 'd', 'e']) == (seq![root_component()], seq!['d', 'e'], false));
    assert(d.drop_last() =~= seq!['/', 'd', 'e', 'v']);
    assert(seq!['/', 'd', 'e', 'v'].drop_last() =~= seq!['/', 'd', 'e']);
    assert(seq!['d', 'e'].push('v') =~= seq!['d', 'e', 'v']);
    assert(path_scan(seq!['/', 'd', 'e', 'v']) == (seq![root_component()], seq!['d', 'e', 'v'], false));
    assert(seq!['d', 'e', 'v'] != seq!['.']);
    assert(seq!['d', 'e', 'v'] =~= "dev"@);
    assert(path_scan(d) == (seq![root_component(), "dev"@], Seq::<char>::empty(), false));
    lemma_scan_name(d, name);
    assert(Seq::<char>::empty() + name =~= name);
    assert(path_components(d + name) =~= seq![root_component(), "dev"@, name]);
    assert(name != root_component()) by {
        if name == root_component() {
            assert(name[0] == '/');
        }
    }
}

/// The texts whose presence, in any letter case, in a failure to open a
/// Windows port shows that the port exists.
pub open spec fn busy_phrases() -> Seq<Seq<char>> {
    seq!["access is denied"@, "permission denied"@, "resource busy"@]
}

/// A failure to open a Windows port whose message says, in any letter
/// case, that access is denied, permission is denied, or the resource is
/// busy, shows that the port exists.
pub proof fn lemma_busy_messages(message: Seq<char>, phrase: int, i: int)
    requires
        0 <= phrase < 3,
        0 <= i,
        i + busy_phrases()[phrase].len() <= message.len(),
        lower_text(message.subrange(i, i + busy_phrases()[phrase].len())) == busy_phrases()[phrase],
    ensures
        suggests_port_exists(message),
{
    let p = busy_phrases()[phrase];
    assert(lower_text(message).subrange(i, i + p.len()) =~= lower_text(
        message.subrange(i, i + p.len()),
    ));
    assert(contains_text(lower_text(message), p));
}

} // verus!
