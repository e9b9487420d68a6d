//! Which files hold sessions, in what order, and under what name.
//!
//! A path is the sequence of its components, and a name is a sequence of bytes:
//! names in a file system need not be text.

use vstd::prelude::*;
use vstd::utf8::{decode_utf8, valid_utf8};

verus! {

/// The byte of the dot that sets an extension off.
pub const DOT: u8 = 46;

/// How deep below the directory of a scan a session file may lie. What lies in
/// the directory itself lies one level deep.
pub const MAX_DEPTH: usize = 3;

/// A file or directory that a walk has found.
#[derive(Debug, Clone)]
pub struct FoundFile {
    /// The components of its path, from the outermost.
    pub components: Vec<Vec<u8>>,
    /// How deep it lies below the directory that was walked.
    pub depth: usize,
    /// The name of the file itself.
    pub name: Vec<u8>,
    /// Whether it is a file and no directory.
    pub is_file: bool,
}

/// The position of the last dot in a name, or -1.
pub open spec fn last_dot(name: Seq<u8>) -> int
    decreases name.len(),
{
    if name.len() == 0 {
        -1
    } else if name.last() == DOT {
        name.len() - 1
    } else {
        last_dot(name.drop_last())
    }
}

/// What stands after the last dot of a name, unless the name begins with it.
pub open spec fn extension(name: Seq<u8>) -> Seq<u8> {
    if last_dot(name) > 0 {
        name.skip(last_dot(name) + 1)
    } else {
        Seq::empty()
    }
}

/// What stands before the last dot of a name, or the whole name where it has
/// no dot or only begins with one.
pub open spec fn stem(name: Seq<u8>) -> Seq<u8> {
    if last_dot(name) > 0 {
        name.take(last_dot(name))
    } else {
        name
    }
}

/// An ASCII capital letter as its small letter, any other byte as itself.
pub open spec fn lower_byte(b: u8) -> u8 {
    if 65 <= b <= 90 {
        (b + 32) as u8
    } else {
        b
    }
}

/// Bytes with the ASCII capital letters made small.
pub open spec fn lower_bytes(bytes: Seq<u8>) -> Seq<u8> {
    bytes.map_values(|b: u8| lower_byte(b))
}

/// The bytes of `json`.
pub open spec fn json_bytes() -> Seq<u8> {
    seq![106u8, 115, 111, 110]
}

/// The bytes of `jsonl`.
pub open spec fn jsonl_bytes() -> Seq<u8> {
    seq![106u8, 115, 111, 110, 108]
}

/// A name with the extension `json` or `jsonl`, in any case.
pub open spec fn is_session_name(name: Seq<u8>) -> bool {
    lower_bytes(extension(name)) == json_bytes() || lower_bytes(extension(name)) == jsonl_bytes()
}

impl FoundFile {
    /// The components of the path as mathematical values.
    pub open spec fn path(self) -> Seq<Seq<u8>> {
        self.components@.map_values(|c: Vec<u8>| c@)
    }

    /// A file that holds a session, and does not lie too deep.
    pub open spec fn holds_session(self) -> bool {
        self.is_file && self.depth <= MAX_DEPTH && is_session_name(self.name@)
    }
}

/// The name of the session in a file: the stem of the file's name where that is
/// text, and `unknown` elsewhere.
pub open spec fn session_name(name: Seq<u8>) -> Seq<char> {
    if valid_utf8(stem(name)) {
        decode_utf8(stem(name))
    } else {
        "unknown"@
    }
}

/// Bytes as text, through `String::from_utf8`.
///
/// There is a text exactly where the bytes are valid UTF-8, and it is what they
/// encode.
#[verifier::external_body]
pub(crate) fn utf8_text(bytes: Vec<u8>) -> (text: Option<String>)
    ensures
        text is Some <==> valid_utf8(bytes@),
        text matches Some(t) ==> t@ == decode_utf8(bytes@),
{
    String::from_utf8(bytes).ok()
}

/// The number of bytes before the last dot, if there is one and the name does
/// not begin with it.
fn dot_position(name: &Vec<u8>) -> (position: Option<usize>)
    ensures
        match position {
            Some(p) => p > 0 && p == last_dot(name@),
            None => last_dot(name@) <= 0,
        },
{
    let mut i: usize = name.len();
    assert(name@.take(i as int) =~= name@);
    while i > 0
        invariant
            i <= name@.len(),
            last_dot(name@) == last_dot(name@.take(i as int)),
        decreases i,
    {
        assert(name@.take(i as int).drop_last() =~= name@.take(i - 1));
        assert(name@.take(i as int).last() == name@[i - 1]);
        i = i - 1;
        if name[i] == DOT {
            return if i > 0 {
                Some(i)
            } else {
                None
            };
        }
    }
    None
}

fn part(bytes: &Vec<u8>, from: usize, to: usize) -> (some: Vec<u8>)
    requires
        from <= to <= bytes@.len(),
    ensures
        some@ == bytes@.subrange(from as int, to as int),
{
    let mut some: Vec<u8> = Vec::new();
    let mut i: usize = from;
    while i < to
        invariant
            from <= i <= to <= bytes@.len(),
            some@ == bytes@.subrange(from as int, i as int),
        decreases to - i,
    {
        some.push(bytes[i]);
        i = i + 1;
    }
    some
}

proof fn lemma_last_dot_range(name: Seq<u8>)
    ensures
        -1 <= last_dot(name) < name.len() || (name.len() == 0 && last_dot(name) == -1),
    decreases name.len(),
{
    if name.len() > 0 {
        lemma_last_dot_range(name.drop_last());
    }
}

/// The name of the session in a file.
pub fn session_id(name: &Vec<u8>) -> (id: String)
    ensures
        id@ == session_name(name@),
{
    proof {
        lemma_last_dot_range(name@);
    }
    let before = match dot_position(name) {
        Some(position) => part(name, 0, position),
        None => part(name, 0, name.len()),
    };
    proof {
        assert(before@ =~= stem(name@));
    }
    match utf8_text(before) {
        Some(text) => text,
        None => "unknown".to_owned(),
    }
}

fn lower_is(bytes: &Vec<u8>, expected: &[u8]) -> (answer: bool)
    ensures
        answer == (lower_bytes(bytes@) == expected@),
{
    if bytes.len() != expected.len() {
        assert(lower_bytes(bytes@).len() != expected@.len());
        return false;
    }
    let mut i: usize = 0;
    while i < bytes.len()
        invariant
            i <= bytes@.len() == expected@.len(),
            forall|j: int| 0 <= j < i ==> lower_byte(bytes@[j]) == #[trigger] expected@[j],
        decreases bytes@.len() - i,
    {
        let b = bytes[i];
        let small: u8 = if 65 <= b && b <= 90 {
            b + 32
        } else {
            b
        };
        if small != expected[i] {
            assert(lower_bytes(bytes@)[i as int] != expected@[i as int]);
            return false;
        }
        i = i + 1;
    }
    assert(lower_bytes(bytes@) =~= expected@);
    true
}

/// Whether a file holds a session.
pub fn is_session_file(file: &FoundFile) -> (answer: bool)
    ensures
        answer == file.holds_session(),
{
    proof {
        lemma_last_dot_range(file.name@);
    }
    let name = &file.name;
    let length: usize = name.len();
    let after = match dot_position(name) {
        Some(position) => part(name, position + 1, length),
        None => Vec::new(),
    };
    assert(after@ =~= extension(name@));
    let json: [u8; 4] = [106, 115, 111, 110];
    let jsonl: [u8; 5] = [106, 115, 111, 110, 108];
    assert(json@ =~= json_bytes());
    assert(jsonl@ =~= jsonl_bytes());
    file.is_file && file.depth <= MAX_DEPTH && (lower_is(&after, &json) || lower_is(&after, &jsonl))
}

/// The order of names: that of their first bytes that differ, and a name comes
/// before those that it begins.
pub open spec fn name_before(a: Seq<u8>, b: Seq<u8>) -> bool
    decreases a.len(),
{
    if b.len() == 0 {
        false
    } else if a.len() == 0 {
        true
    } else if a[0] != b[0] {
        a[0] < b[0]
    } else {
        name_before(a.drop_first(), b.drop_first())
    }
}

/// The order of paths: that of their first components that differ, and a path
/// comes before those that it begins.
pub open spec fn path_before(a: Seq<Seq<u8>>, b: Seq<Seq<u8>>) -> bool
    decreases a.len(),
{
    if b.len() == 0 {
        false
    } else if a.len() == 0 {
        true
    } else if a[0] != b[0] {
        name_before(a[0], b[0])
    } else {
        path_before(a.drop_first(), b.drop_first())
    }
}

proof fn lemma_name_order(a: Seq<u8>, b: Seq<u8>)
    ensures
        !(name_before(a, b) && name_before(b, a)),
        name_before(a, b) || name_before(b, a) || a == b,
        !name_before(a, a),
    decreases a.len(),
{
    if a.len() > 0 {
        lemma_name_order(a.drop_first(), a.drop_first());
        if b.len() > 0 && a[0] == b[0] {
            lemma_name_order(a.drop_first(), b.drop_first());
            if a.drop_first() == b.drop_first() {
                assert(seq![a[0]] + a.drop_first() =~= a);
                assert(seq![b[0]] + b.drop_first() =~= b);
            }
        }
    } else if b.len() == 0 {
        assert(a =~= b);
    }
}

proof fn lemma_name_transitive(a: Seq<u8>, b: Seq<u8>, c: Seq<u8>)
    requires
        name_before(a, b),
        name_before(b, c),
    ensures
        name_before(a, c),
    decreases a.len(),
{
    if a.len() > 0 && a[0] == b[0] && b[0] == c[0] {
        lemma_name_transitive(a.drop_first(), b.drop_first(), c.drop_first());
    }
}

/// Of two different paths exactly one comes before the other.
pub proof fn lemma_path_order(a: Seq<Seq<u8>>, b: Seq<Seq<u8>>)
    ensures
        !(path_before(a, b) && path_before(b, a)),
        path_before(a, b) || path_before(b, a) || a == b,
        !path_before(a, a),
    decreases a.len(),
{
    if a.len() > 0 {
        lemma_path_order(a.drop_first(), a.drop_first());
        if b.len() > 0 {
            lemma_name_order(a[0], b[0]);
            if a[0] == b[0] {
                lemma_path_order(a.drop_first(), b.drop_first());
                if a.drop_first() == b.drop_first() {
                    assert(seq![a[0]] + a.drop_first() =~= a);
                    assert(seq![b[0]] + b.drop_first() =~= b);
                }
            }
        }
    } else if b.len() == 0 {
        assert(a =~= b);
    }
}

/// The order of paths is transitive.
pub proof fn lemma_path_transitive(a: Seq<Seq<u8>>, b: Seq<Seq<u8>>, c: Seq<Seq<u8>>)
    requires
        path_before(a, b),
        path_before(b, c),
    ensures
        path_before(a, c),
    decreases a.len(),
{
    if a.len() > 0 {
        lemma_name_order(a[0], b[0]);
        lemma_name_order(b[0], c[0]);
        lemma_name_order(a[0], c[0]);
        if a[0] == b[0] && b[0] == c[0] {
            lemma_path_transitive(a.drop_first(), b.drop_first(), c.drop_first());
        } else if a[0] != b[0] && b[0] != c[0] {
            lemma_name_transitive(a[0], b[0], c[0]);
        }
    }
}

/// Whether two names are the same.
pub(crate) fn same_name(a: &Vec<u8>, b: &Vec<u8>) -> (answer: bool)
    ensures
        answer == (a@ == b@),
{
    if a.len() != b.len() {
        return false;
    }
    let mut i: usize = 0;
    while i < a.len()
        invariant
            i <= a@.len() == b@.len(),
            forall|j: int| 0 <= j < i ==> a@[j] == #[trigger] b@[j],
        decreases a@.len() - i,
    {
        if a[i] != b[i] {
            return false;
        }
        i = i + 1;
    }
    assert(a@ =~= b@);
    true
}

fn name_precedes(a: &Vec<u8>, b: &Vec<u8>) -> (answer: bool)
    ensures
        answer == name_before(a@, b@),
{
    let mut i: usize = 0;
    assert(a@.skip(0) =~= a@);
    assert(b@.skip(0) =~= b@);
    loop
        invariant
            i <= a@.len(),
            i <= b@.len(),
            name_before(a@, b@) == name_before(a@.skip(i as int), b@.skip(i as int)),
        decreases a@.len() - i,
    {
        if i == b.len() {
            return false;
        }
        if i == a.len() {
            return true;
        }
        if a[i] != b[i] {
            return a[i] < b[i];
        }
        proof {
            assert(a@.skip(i as int).drop_first() =~= a@.skip(i + 1));
            assert(b@.skip(i as int).drop_first() =~= b@.skip(i + 1));
        }
        i = i + 1;
    }
}

/// Whether one file comes before another in the order of paths.
pub fn precedes(a: &FoundFile, b: &FoundFile) -> (answer: bool)
    ensures
        answer == path_before(a.path(), b.path()),
{
    let mut i: usize = 0;
    assert(a.path().skip(0) =~= a.path());
    assert(b.path().skip(0) =~= b.path());
    loop
        invariant
            i <= a.path().len(),
            i <= b.path().len(),
            path_before(a.path(), b.path()) == path_before(
                a.path().skip(i as int),
                b.path().skip(i as int),
            ),
        decreases a.path().len() - i,
    {
        if i == b.components.len() {
            return false;
        }
        if i == a.components.len() {
            return true;
        }
        let first = &a.components[i];
        let second = &b.components[i];
        proof {
            assert(a.path()[i as int] == first@);
            assert(b.path()[i as int] == second@);
        }
        if !same_name(first, second) {
            return name_precedes(first, second);
        }
        proof {
            assert(a.path().skip(i as int).drop_first() =~= a.path().skip(i + 1));
            assert(b.path().skip(i as int).drop_first() =~= b.path().skip(i + 1));
        }
        i = i + 1;
    }
}

/// A found file is to be listed before another: its path comes before, or the
/// paths are the same and it was found before.
pub open spec fn listed_before(found: Seq<FoundFile>, a: int, b: int) -> bool {
    path_before(found[a].path(), found[b].path()) || (found[a].path() == found[b].path() && a < b)
}

/// The places of the first `n` found files that hold sessions, in the order of
/// their paths.
pub open spec fn is_listing(found: Seq<FoundFile>, n: int, places: Seq<usize>) -> bool {
    &&& forall|k: usize|
        #[trigger] places.contains(k) <==> (k < n && found[k as int].holds_session())
    &&& forall|i: int, j: int|
        #![trigger places[i], places[j]]
        0 <= i < j < places.len() ==> listed_before(found, places[i] as int, places[j] as int)
}

proof fn lemma_insert_contains(places: Seq<usize>, at: int, new: usize, k: usize)
    requires
        0 <= at <= places.len(),
    ensures
        places.insert(at, new).contains(k) <==> (k == new || places.contains(k)),
{
    let after = places.insert(at, new);
    if k == new {
        assert(after[at] == k);
    }
    if places.contains(k) {
        let i = choose|i: int| 0 <= i < places.len() && places[i] == k;
        if i < at {
            assert(after[i] == k);
        } else {
            assert(after[i + 1] == k);
        }
    }
    if after.contains(k) && k != new {
        let i = choose|i: int| 0 <= i < after.len() && after[i] == k;
        if i < at {
            assert(places[i] == k);
        } else {
            assert(places[i - 1] == k);
        }
    }
}

/// Which of the found files hold sessions: their places, in the order of the
/// paths.
pub fn collect_session_files(found: &Vec<FoundFile>) -> (places: Vec<usize>)
    ensures
        is_listing(found@, found@.len() as int, places@),
{
    let mut places: Vec<usize> = Vec::new();
    let mut k: usize = 0;
    while k < found.len()
        invariant
            k <= found@.len(),
            is_listing(found@, k as int, places@),
        decreases found@.len() - k,
    {
        let ghost before = places@;
        let ghost files = found@;
        if is_session_file(&found[k]) {
            let mut at: usize = places.len();
            proof {
                assert forall|i: int| 0 <= i < before.len() implies before[i] < k by {
                    assert(before.contains(before[i]));
                }
            }
            while at > 0 && precedes(&found[k], &found[places[at - 1]])
                invariant
                    at <= places@.len(),
                    places@ == before,
                    files == found@,
                    k < found@.len(),
                    is_listing(files, k as int, before),
                    forall|i: int| 0 <= i < before.len() ==> before[i] < k,
                    forall|i: int|
                        at <= i < before.len() ==> path_before(
                            files[k as int].path(),
                            files[#[trigger] before[i] as int].path(),
                        ),
                decreases at,
            {
                at = at - 1;
            }
            places.insert(at, k);
            proof {
                let after = before.insert(at as int, k);
                assert(places@ == after);
                assert forall|m: usize|
                    #[trigger] after.contains(m) <==> (m < k + 1
                        && files[m as int].holds_session()) by {
                    lemma_insert_contains(before, at as int, k, m);
                    assert(before.contains(m) <==> (m < k && files[m as int].holds_session()));
                }
                assert forall|i: int, j: int|
                    #![trigger after[i], after[j]]
                    0 <= i < j < after.len() implies listed_before(
                    files,
                    after[i] as int,
                    after[j] as int,
                ) by {
                    let i0 = if i < at {
                        i
                    } else {
                        i - 1
                    };
                    let j0 = if j < at {
                        j
                    } else {
                        j - 1
                    };
                    if i != at && j != at {
                        assert(before[i0] == after[i]);
                        assert(before[j0] == after[j]);
                    } else if i == at {
                        assert(before[j0] == after[j]);
                    } else {
                        assert(before[i] == after[i]);
                        let new = files[k as int].path();
                        let last = files[before[at - 1] as int].path();
                        let other = files[before[i] as int].path();
                        lemma_path_order(new, last);
                        if i < at - 1 {
                            assert(listed_before(
                                files,
                                before[i] as int,
                                before[at - 1] as int,
                            ));
                            if other != last && last != new {
                                lemma_path_transitive(other, last, new);
                            }
                        }
                    }
                }
            }
        } else {
            proof {
                assert forall|m: usize|
                    #[trigger] before.contains(m) <==> (m < k + 1
                        && files[m as int].holds_session()) by {
                    assert(before.contains(m) <==> (m < k && files[m as int].holds_session()));
                }
            }
        }
        k = k + 1;
    }
    places
}

/// A found file that holds a session.
#[derive(Debug, Clone, PartialEq)]
pub struct SessionFile {
    /// Its place among the found files.
    pub place: usize,
    /// The name of the session in it.
    pub session_id: String,
}

/// The places of session files.
pub open spec fn places_of(files: Seq<SessionFile>) -> Seq<usize> {
    files.map_values(|f: SessionFile| f.place)
}

/// The session files among found files, in the order of their paths, each with
/// the name of its session.
pub fn session_files(found: &Vec<FoundFile>) -> (files: Vec<SessionFile>)
    ensures
        is_listing(found@, found@.len() as int, places_of(files@)),
        forall|i: int|
            0 <= i < files@.len() ==> (#[trigger] files@[i]).session_id@ == session_name(
                found@[files@[i].place as int].name@,
            ),
{
    let places = collect_session_files(found);
    let mut files: Vec<SessionFile> = Vec::with_capacity(places.len());
    let mut i: usize = 0;
    while i < places.len()
        invariant
            i <= places@.len(),
            is_listing(found@, found@.len() as int, places@),
            places_of(files@) == places@.take(i as int),
            forall|j: int|
                0 <= j < files@.len() ==> (#[trigger] files@[j]).session_id@ == session_name(
                    found@[files@[j].place as int].name@,
                ),
        decreases places@.len() - i,
    {
        let place: usize = places[i];
        assert(places@.contains(place));
        let ghost before = files@;
        files.push(SessionFile { place, session_id: session_id(&found[place].name) });
        assert(places_of(files@) =~= places_of(before).push(place));
        i = i + 1;
    }
    assert(places@.take(i as int) =~= places@);
    files
}

/// The listing of found files is determined: there is only one.
pub proof fn law_listing_unique(found: Seq<FoundFile>, first: Seq<usize>, second: Seq<usize>)
    requires
        is_listing(found, found.len() as int, first),
        is_listing(found, found.len() as int, second),
    ensures
        first == second,
{
    assert(first.take(0) =~= second.take(0));
    lemma_listings_agree(found, found.len() as int, first, second, 0);
}

proof fn lemma_listed_irreflexive(found: Seq<FoundFile>, a: int, b: int)
    ensures
        !(listed_before(found, a, b) && listed_before(found, b, a)),
        !listed_before(found, a, a),
{
    lemma_path_order(found[a].path(), found[b].path());
    lemma_path_order(found[a].path(), found[a].path());
}

proof fn lemma_listings_agree(
    found: Seq<FoundFile>,
    n: int,
    first: Seq<usize>,
    second: Seq<usize>,
    i: int,
)
    requires
        is_listing(found, n, first),
        is_listing(found, n, second),
        0 <= i <= first.len(),
        i <= second.len(),
        first.take(i) == second.take(i),
    ensures
        first == second,
    decreases first.len() - i,
{
    if i == first.len() {
        if i < second.len() {
            assert(second.contains(second[i]));
            assert(first.contains(second[i]));
            let j = choose|j: int| 0 <= j < first.len() && first[j] == second[i];
            assert(first.take(i)[j] == first[j]);
            assert(second.take(i)[j] == second[j]);
            assert(listed_before(found, second[j] as int, second[i] as int));
            lemma_listed_irreflexive(found, second[i] as int, second[i] as int);
        }
        assert(first =~= first.take(i));
        assert(second =~= second.take(i));
    } else {
        assert(first.contains(first[i]));
        assert(second.contains(first[i]));
        let j = choose|j: int| 0 <= j < second.len() && second[j] == first[i];
        if j < i {
            assert(first.take(i)[j] == first[j]);
            assert(second.take(i)[j] == second[j]);
            assert(listed_before(found, first[j] as int, first[i] as int));
            lemma_listed_irreflexive(found, first[i] as int, first[i] as int);
        }
        if j > i {
            assert(second.contains(second[i]));
            assert(first.contains(second[i]));
            let m = choose|m: int| 0 <= m < first.len() && first[m] == second[i];
            if m < i {
                assert(first.take(i)[m] == first[m]);
                assert(second.take(i)[m] == second[m]);
                assert(listed_before(found, second[m] as int, second[i] as int));
                lemma_listed_irreflexive(found, second[i] as int, second[i] as int);
            } else if m > i {
                assert(listed_before(found, first[i] as int, first[m] as int));
                assert(listed_before(found, second[i] as int, second[j] as int));
                lemma_listed_irreflexive(found, first[i] as int, second[i] as int);
            } else {
                assert(second[i] == second[j]);
                assert(listed_before(found, second[i] as int, second[j] as int));
                lemma_listed_irreflexive(found, second[i] as int, second[i] as int);
            }
        }
        assert(j == i);
        assert(first.take(i + 1) =~= first.take(i).push(first[i]));
        assert(second.take(i + 1) =~= second.take(i).push(second[i]));
        lemma_listings_agree(found, n, first, second, i + 1);
    }
}

} // verus!
