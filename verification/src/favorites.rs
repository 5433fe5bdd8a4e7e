//! The ids of the favorite apps, and the file that they are kept in: one id a line, in
//! order.
use crate::text::{no_later, push_char, same, to_chars, trim_range};
#[allow(unused_imports)]
use crate::text::{
    lemma_text_le_antisymmetric, lemma_text_le_total, lemma_text_le_transitive, text_le, trimmed,
};
use vstd::prelude::*;
use vstd::string::*;

verus! {

/// A set of app ids.
pub struct Favorites {
    ids: Vec<String>,
}

/// Every text comes before those after it, and none occurs twice.
pub open spec fn ascending(list: Seq<Seq<char>>) -> bool {
    forall|i: int, j: int|
        0 <= i < j < list.len() ==> text_le(#[trigger] list[i], #[trigger] list[j]) && list[i]
            != list[j]
}

/// The texts joined by line feeds.
pub open spec fn joined(list: Seq<Seq<char>>) -> Seq<char>
    decreases list.len(),
{
    if list.len() == 0 {
        Seq::empty()
    } else if list.len() == 1 {
        list[0]
    } else {
        joined(list.drop_last()) + seq!['\n'] + list.last()
    }
}

/// The characters of `s` from `i` up to `j` make up a line.
pub open spec fn is_line(s: Seq<char>, i: int, j: int) -> bool {
    &&& 0 <= i <= j <= s.len()
    &&& i == 0 || s[i - 1] == '\n'
    &&& j == s.len() || s[j] == '\n'
    &&& forall|k: int| i <= k < j ==> #[trigger] s[k] != '\n'
}

/// Some line of the file, trimmed, is `id`.
pub open spec fn names(s: Seq<char>, id: Seq<char>) -> bool {
    exists|i: int, j: int| #[trigger] is_line(s, i, j) && trimmed(s.subrange(i, j)) == id
}

/// The ids that a file names: its lines, trimmed, without the blank ones.
pub open spec fn named_in(s: Seq<char>) -> Set<Seq<char>> {
    Set::new(|id: Seq<char>| id.len() > 0 && names(s, id))
}

impl Favorites {
    spec fn list(self) -> Seq<Seq<char>> {
        self.ids@.map_values(|s: String| s@)
    }

    /// The ids are kept in order, none twice.
    pub closed spec fn wf(self) -> bool {
        ascending(self.list())
    }
}

impl View for Favorites {
    type V = Set<Seq<char>>;

    closed spec fn view(&self) -> Set<Seq<char>> {
        self.list().to_set()
    }
}

/// Where `id` is or belongs in the list.
fn place(ids: &Vec<String>, id: &str) -> (r: usize)
    requires
        ascending(ids@.map_values(|s: String| s@)),
    ensures
        r <= ids@.len(),
        forall|k: int|
            0 <= k < r ==> text_le((#[trigger] ids@[k])@, id@) && ids@[k]@ != id@,
        forall|k: int| r <= k < ids@.len() ==> text_le(id@, (#[trigger] ids@[k])@),
{
    let ghost l = ids@.map_values(|s: String| s@);
    let mut i: usize = 0;
    while i < ids.len() && !no_later(id, ids[i].as_str())
        invariant
            i <= ids@.len(),
            forall|k: int| 0 <= k < i ==> !text_le(id@, (#[trigger] ids@[k])@),
        decreases ids@.len() - i,
    {
        i = i + 1;
    }
    proof {
        assert forall|k: int| 0 <= k < i implies text_le((#[trigger] ids@[k])@, id@) && ids@[k]@
            != id@ by {
            lemma_text_le_total(id@, ids@[k]@);
            lemma_text_le_total(id@, id@);
        }
        assert forall|k: int| i <= k < ids@.len() implies text_le(id@, (#[trigger] ids@[k])@) by {
            if i < k {
                assert(text_le(l[i as int], l[k]));
                lemma_text_le_transitive(id@, ids@[i as int]@, ids@[k]@);
            }
        }
    }
    i
}

impl Favorites {
    /// No favorites.
    pub fn new() -> (r: Favorites)
        ensures
            r.wf(),
            r@ == Set::<Seq<char>>::empty(),
    {
        let r = Favorites { ids: Vec::new() };
        assert(r.list() =~= Seq::<Seq<char>>::empty());
        assert(r@ =~= Set::<Seq<char>>::empty());
        r
    }

    /// Whether `id` is a favorite.
    pub fn contains(&self, id: &str) -> (r: bool)
        requires
            self.wf(),
        ensures
            r == self@.contains(id@),
    {
        let i: usize = place(&self.ids, id);
        let r = i < self.ids.len() && same(self.ids[i].as_str(), id);
        proof {
            let l = self.list();
            if r {
                assert(l[i as int] == id@);
            } else if l.contains(id@) {
                let k = choose|k: int| 0 <= k < l.len() && l[k] == id@;
                assert(self.ids@[k]@ == id@);
                if k > i {
                    assert(text_le(l[i as int], l[k]));
                    assert(text_le(id@, self.ids@[i as int]@));
                    lemma_text_le_antisymmetric(id@, l[i as int]);
                }
            }
        }
        r
    }

    /// Adds `id`.
    pub fn insert(&mut self, id: String)
        requires
            old(self).wf(),
        ensures
            final(self).wf(),
            final(self)@ == old(self)@.insert(id@),
    {
        if self.contains(id.as_str()) {
            assert(self@.insert(id@) =~= self@);
            return;
        }
        let i: usize = place(&self.ids, id.as_str());
        let ghost l = self.list();
        let ghost x = id@;
        self.ids.insert(i, id);
        proof {
            let m = self.list();
            assert(m =~= l.insert(i as int, x));
            assert forall|a: int, b: int| 0 <= a < b < m.len() implies text_le(
                #[trigger] m[a],
                #[trigger] m[b],
            ) && m[a] != m[b] by {
                let p = if a < i {
                    a
                } else {
                    a - 1
                };
                let q = if b < i {
                    b
                } else {
                    b - 1
                };
                if a == i {
                    assert(m[b] == l[q] && l[q] == old(self).ids@[q]@);
                    assert(l.contains(l[q]));
                } else if b == i {
                    assert(m[a] == l[p] && l[p] == old(self).ids@[p]@);
                } else {
                    assert(m[a] == l[p] && m[b] == l[q]);
                }
            }
            assert forall|k: Seq<char>| m.contains(k) <==> l.contains(k) || k == x by {
                if l.contains(k) {
                    let a = choose|a: int| 0 <= a < l.len() && l[a] == k;
                    assert(m[if a < i {
                        a
                    } else {
                        a + 1
                    }] == k);
                }
                if k == x {
                    assert(m[i as int] == k);
                }
                if m.contains(k) && k != x {
                    let a = choose|a: int| 0 <= a < m.len() && m[a] == k;
                    assert(l[if a < i {
                        a
                    } else {
                        a - 1
                    }] == k);
                }
            }
            assert(self@ =~= old(self)@.insert(x));
        }
    }

    /// Takes `id` out.
    fn remove(&mut self, id: &str)
        requires
            old(self).wf(),
            old(self)@.contains(id@),
        ensures
            final(self).wf(),
            final(self)@ == old(self)@.remove(id@),
    {
        let i: usize = place(&self.ids, id);
        let ghost l = self.list();
        proof {
            let k = choose|k: int| 0 <= k < l.len() && l[k] == id@;
            assert(self.ids@[k]@ == id@);
            if k > i {
                assert(text_le(l[i as int], l[k]));
                assert(text_le(id@, self.ids@[i as int]@));
                lemma_text_le_antisymmetric(id@, l[i as int]);
            }
            assert(k == i);
        }
        let _gone = self.ids.remove(i);
        proof {
            let m = self.list();
            assert(m =~= l.remove(i as int));
            assert forall|a: int, b: int| 0 <= a < b < m.len() implies text_le(
                #[trigger] m[a],
                #[trigger] m[b],
            ) && m[a] != m[b] by {
                let p = if a < i {
                    a
                } else {
                    a + 1
                };
                let q = if b < i {
                    b
                } else {
                    b + 1
                };
                assert(m[a] == l[p] && m[b] == l[q]);
            }
            assert forall|k: Seq<char>| m.contains(k) <==> l.contains(k) && k != id@ by {
                if l.contains(k) && k != id@ {
                    let a = choose|a: int| 0 <= a < l.len() && l[a] == k;
                    assert(m[if a < i {
                        a
                    } else {
                        a - 1
                    }] == k);
                }
                if m.contains(k) {
                    let a = choose|a: int| 0 <= a < m.len() && m[a] == k;
                    let p = if a < i {
                        a
                    } else {
                        a + 1
                    };
                    assert(l[p] == k);
                    if a < i {
                        assert(l[p] != l[i as int]);
                    } else {
                        assert(l[i as int] != l[p]);
                    }
                }
            }
            assert(self@ =~= old(self)@.remove(id@));
        }
    }

    /// Adds `id`, or takes it out if it is in.
    pub fn toggle(&mut self, id: String)
        requires
            old(self).wf(),
        ensures
            final(self).wf(),
            final(self)@ == toggled(old(self)@, id@),
    {
        if self.contains(id.as_str()) {
            self.remove(id.as_str());
        } else {
            self.insert(id);
        }
    }
}

/// A set with `id` added, or taken out if it is in.
pub open spec fn toggled(set: Set<Seq<char>>, id: Seq<char>) -> Set<Seq<char>> {
    if set.contains(id) {
        set.remove(id)
    } else {
        set.insert(id)
    }
}

/// Toggling twice changes nothing.
pub proof fn toggle_undoes_itself(set: Set<Seq<char>>, id: Seq<char>)
    ensures
        toggled(toggled(set, id), id) == set,
{
    assert(toggled(toggled(set, id), id) =~= set);
}

/// The texts of a set in order.
pub open spec fn is_listing(list: Seq<Seq<char>>, set: Set<Seq<char>>) -> bool {
    ascending(list) && list.to_set() == set
}

/// Some line of the file that ends before `n`, trimmed, is `id`.
spec fn names_before(s: Seq<char>, n: int, id: Seq<char>) -> bool {
    exists|i: int, j: int|
        #[trigger] is_line(s, i, j) && j < n && trimmed(s.subrange(i, j)) == id
}

impl Favorites {
    /// The favorites that a file names.
    pub fn load(text: &str) -> (r: Favorites)
        ensures
            r.wf(),
            r@ == named_in(text@),
    {
        let v = to_chars(text);
        let ghost s = text@;
        let mut r = Favorites::new();
        let mut start: usize = 0;
        let mut i: usize = 0;
        let n: usize = v.len();
        let mut done = false;
        while !done
            invariant
                v@ == s,
                n == s.len(),
                r.wf(),
                !done ==> i <= n && start <= i,
                !done ==> start == 0 || s[start - 1] == '\n',
                !done ==> forall|k: int| start <= k < i ==> #[trigger] s[k] != '\n',
                done ==> i == n,
                forall|id: Seq<char>|
                    #[trigger] r@.contains(id) <==> id.len() > 0 && names_before(
                        s,
                        if done {
                            n + 1
                        } else {
                            i as int
                        },
                        id,
                    ),
            decreases
                n - i,
                if done {
                    0int
                } else {
                    1int
                },
        {
            if i == n || v[i] == '\n' {
                assert(is_line(s, start as int, i as int));
                let id = trim_range(&v, start, i);
                let ghost before = r@;
                let ghost x = id@;
                assert(x == trimmed(s.subrange(start as int, i as int)));
                if !id.as_str().is_empty() {
                    r.insert(id);
                }
                proof {
                    assert forall|id: Seq<char>| #[trigger] r@.contains(id) <==> id.len() > 0
                        && names_before(s, i + 1, id) by {
                        lemma_next_line(s, start as int, i as int, id);
                        assert(before.contains(id) <==> id.len() > 0 && names_before(
                            s,
                            i as int,
                            id,
                        ));
                    }
                }
                if i == n {
                    done = true;
                } else {
                    start = i + 1;
                    i = i + 1;
                }
            } else {
                proof {
                    assert forall|id: Seq<char>| names_before(s, i + 1, id) == names_before(
                        s,
                        i as int,
                        id,
                    ) by {
                        lemma_no_line_end(s, i as int, id);
                    }
                }
                i = i + 1;
            }
        }
        proof {
            assert forall|id: Seq<char>| r@.contains(id) <==> named_in(s).contains(id) by {
                if names(s, id) {
                    let (a, b) = choose|a: int, b: int|
                        #[trigger] is_line(s, a, b) && trimmed(s.subrange(a, b)) == id;
                    assert(is_line(s, a, b) && b < n + 1);
                }
            }
            assert(r@ =~= named_in(s));
        }
        r
    }

    /// The file that keeps the favorites.
    pub fn text(&self) -> (r: String)
        requires
            self.wf(),
        ensures
            exists|list: Seq<Seq<char>>| #[trigger] is_listing(list, self@) && r@ == joined(list),
    {
        let ghost l = self.list();
        let mut r: String = String::new();
        let mut i: usize = 0;
        while i < self.ids.len()
            invariant
                i <= self.ids@.len(),
                l == self.list(),
                r@ == joined(l.take(i as int)),
            decreases self.ids@.len() - i,
        {
            assert(l.take(i + 1).drop_last() == l.take(i as int));
            assert(l[i as int] == self.ids@[i as int]@);
            if i > 0 {
                push_char(&mut r, '\n');
            }
            r.append(self.ids[i].as_str());
            assert(r@ =~= joined(l.take(i + 1)));
            i = i + 1;
        }
        assert(l.take(l.len() as int) == l);
        assert(is_listing(l, self@));
        r
    }
}

/// The lines that end before `i + 1` are those that end before `i` and the one that ends
/// at `i`.
proof fn lemma_next_line(s: Seq<char>, start: int, i: int, id: Seq<char>)
    requires
        is_line(s, start, i),
    ensures
        names_before(s, i + 1, id) <==> names_before(s, i, id) || trimmed(s.subrange(start, i)) == id,
{
    if names_before(s, i + 1, id) {
        let (a, b) = choose|a: int, b: int|
            #[trigger] is_line(s, a, b) && b < i + 1 && trimmed(s.subrange(a, b)) == id;
        if b == i {
            if a < start {
                assert(s[start - 1] != '\n');
            }
            if start < a {
                assert(s[a - 1] != '\n');
            }
        } else {
            assert(is_line(s, a, b) && b < i);
        }
    }
    if names_before(s, i, id) {
        let (a, b) = choose|a: int, b: int|
            #[trigger] is_line(s, a, b) && b < i && trimmed(s.subrange(a, b)) == id;
        assert(is_line(s, a, b) && b < i + 1);
    }
}

/// No line ends where neither the file nor a line feed is.
proof fn lemma_no_line_end(s: Seq<char>, i: int, id: Seq<char>)
    requires
        0 <= i < s.len(),
        s[i] != '\n',
    ensures
        names_before(s, i + 1, id) == names_before(s, i, id),
{
    if names_before(s, i + 1, id) {
        let (a, b) = choose|a: int, b: int|
            #[trigger] is_line(s, a, b) && b < i + 1 && trimmed(s.subrange(a, b)) == id;
        assert(is_line(s, a, b) && b < i);
    }
    if names_before(s, i, id) {
        let (a, b) = choose|a: int, b: int|
            #[trigger] is_line(s, a, b) && b < i && trimmed(s.subrange(a, b)) == id;
        assert(is_line(s, a, b) && b < i + 1);
    }
}

/// An id that a file can keep: not blank, without white space around it, on one line.
pub open spec fn can_be_kept(id: Seq<char>) -> bool {
    id.len() > 0 && trimmed(id) == id && forall|k: int| 0 <= k < id.len() ==> #[trigger] id[k] != '\n'
}

/// What is kept is found again: loading the file of a set of favorites gives the set, as
/// long as a file can keep every id in it.
pub proof fn favorites_are_remembered(list: Seq<Seq<char>>, set: Set<Seq<char>>)
    requires
        is_listing(list, set),
        forall|id: Seq<char>| #[trigger] set.contains(id) ==> can_be_kept(id),
    ensures
        named_in(joined(list)) == set,
{
    assert forall|k: int| 0 <= k < list.len() implies can_be_kept(#[trigger] list[k]) by {
        assert(list.contains(list[k]));
        assert(set.contains(list[k]));
    }
    assert forall|id: Seq<char>| named_in(joined(list)).contains(id) <==> set.contains(id) by {
        lemma_joined_names(list, id);
        assert(set.contains(id) <==> list.contains(id));
    }
    assert(named_in(joined(list)) =~= set);
}

proof fn lemma_joined_names(list: Seq<Seq<char>>, id: Seq<char>)
    requires
        forall|k: int| 0 <= k < list.len() ==> can_be_kept(#[trigger] list[k]),
    ensures
        id.len() > 0 ==> (names(joined(list), id) <==> list.contains(id)),
    decreases list.len(),
{
    let s = joined(list);
    if list.len() == 0 {
        if names(s, id) {
            let (a, b) = choose|a: int, b: int|
                #[trigger] is_line(s, a, b) && trimmed(s.subrange(a, b)) == id;
            assert(s.subrange(a, b) =~= Seq::<char>::empty());
        }
    } else if list.len() == 1 {
        lemma_single_line(s, id);
        assert(can_be_kept(list[0]));
        if id == list[0] {
            assert(list.contains(id));
        }
    } else {
        let head = list.drop_last();
        let last = list.last();
        assert(last == list[list.len() - 1]);
        assert forall|k: int| 0 <= k < head.len() implies can_be_kept(#[trigger] head[k]) by {
            assert(head[k] == list[k]);
        }
        lemma_joined_names(head, id);
        lemma_appended_line(joined(head), last, id);
        assert(list =~= head.push(last));
        if head.contains(id) {
            let k = choose|k: int| 0 <= k < head.len() && head[k] == id;
            assert(list[k] == id);
        }
        if id == last {
            assert(list[list.len() - 1] == id);
        }
        if list.contains(id) {
            let k = choose|k: int| 0 <= k < list.len() && list[k] == id;
            if k < head.len() {
                assert(head[k] == id);
            }
        }
    }
}

/// A text without line feeds is one line.
proof fn lemma_single_line(s: Seq<char>, id: Seq<char>)
    requires
        forall|k: int| 0 <= k < s.len() ==> #[trigger] s[k] != '\n',
    ensures
        names(s, id) <==> trimmed(s) == id,
{
    let n = s.len() as int;
    assert(s.subrange(0, n) =~= s);
    assert(is_line(s, 0, n));
    if names(s, id) {
        let (a, b) = choose|a: int, b: int|
            #[trigger] is_line(s, a, b) && trimmed(s.subrange(a, b)) == id;
        assert(a == 0 && b == n);
    }
}

/// A line feed and a text without one add one line.
proof fn lemma_appended_line(head: Seq<char>, last: Seq<char>, id: Seq<char>)
    requires
        forall|k: int| 0 <= k < last.len() ==> #[trigger] last[k] != '\n',
    ensures
        names(head + seq!['\n'] + last, id) <==> names(head, id) || trimmed(last) == id,
{
    let s = head + seq!['\n'] + last;
    let h = head.len() as int;
    let n = s.len() as int;
    assert(s[h] == '\n');
    assert forall|k: int| h < k < n implies #[trigger] s[k] != '\n' by {
        assert(s[k] == last[k - h - 1]);
    }
    assert(s.subrange(h + 1, n) =~= last);
    assert(is_line(s, h + 1, n));
    if names(s, id) {
        let (a, b) = choose|a: int, b: int|
            #[trigger] is_line(s, a, b) && trimmed(s.subrange(a, b)) == id;
        if b <= h {
            assert(s.subrange(a, b) =~= head.subrange(a, b));
            assert forall|k: int| a <= k < b implies #[trigger] head[k] != '\n' by {
                assert(s[k] == head[k]);
            }
            if a > 0 {
                assert(s[a - 1] == head[a - 1]);
            }
            if b < h {
                assert(s[b] == head[b]);
            }
            assert(is_line(head, a, b));
        } else {
            if a <= h {
                assert(s[h] != '\n');
            }
            if a > h + 1 {
                assert(s[a - 1] != '\n');
            }
            assert(b == n);
        }
    }
    if names(head, id) {
        let (a, b) = choose|a: int, b: int|
            #[trigger] is_line(head, a, b) && trimmed(head.subrange(a, b)) == id;
        assert(s.subrange(a, b) =~= head.subrange(a, b));
        assert forall|k: int| a <= k < b implies #[trigger] s[k] != '\n' by {
            assert(s[k] == head[k]);
        }
        assert(is_line(s, a, b));
    }
}

/// A file is read line by line: a line more names what it says, trimmed, unless it is blank,
/// besides what the lines before it name.
pub proof fn files_are_read_line_by_line(head: Seq<char>, line: Seq<char>)
    requires
        forall|k: int| 0 <= k < line.len() ==> #[trigger] line[k] != '\n',
    ensures
        named_in(head + seq!['\n'] + line) == if trimmed(line).len() == 0 {
            named_in(head)
        } else {
            named_in(head).insert(trimmed(line))
        },
        named_in(line) == if trimmed(line).len() == 0 {
            Set::empty()
        } else {
            Set::empty().insert(trimmed(line))
        },
{
    assert forall|id: Seq<char>|
        named_in(head + seq!['\n'] + line).contains(id) <==> id.len() > 0 && (names(head, id)
            || trimmed(line) == id) by {
        lemma_appended_line(head, line, id);
    }
    assert forall|id: Seq<char>| named_in(line).contains(id) <==> id.len() > 0 && trimmed(line)
        == id by {
        lemma_single_line(line, id);
    }
    let whole = named_in(head + seq!['\n'] + line);
    if trimmed(line).len() == 0 {
        assert(whole =~= named_in(head));
        assert(named_in(line) =~= Set::empty());
    } else {
        assert forall|id: Seq<char>| whole.contains(id) <==> named_in(head).insert(
            trimmed(line),
        ).contains(id) by {
            assert(named_in(head).contains(id) <==> id.len() > 0 && names(head, id));
        }
        assert(whole =~= named_in(head).insert(trimmed(line)));
        assert(named_in(line) =~= Set::empty().insert(trimmed(line)));
    }
}

/// A file holds one id a line, without a line feed at its end.
pub proof fn files_hold_one_id_a_line(list: Seq<Seq<char>>, id: Seq<char>)
    ensures
        joined(Seq::empty()).len() == 0,
        list.len() == 0 ==> joined(list.push(id)) == id,
        list.len() > 0 ==> joined(list.push(id)) == joined(list) + seq!['\n'] + id,
{
    assert(list.push(id).drop_last() =~= list);
}

/// The file of a set is fully determined: its ids come in ascending order, each once.
pub proof fn files_are_determined_by_the_set(
    a: Seq<Seq<char>>,
    b: Seq<Seq<char>>,
    set: Set<Seq<char>>,
)
    requires
        is_listing(a, set),
        is_listing(b, set),
    ensures
        a == b,
        forall|i: int, j: int|
            0 <= i < j < a.len() ==> #[trigger] a[i] != #[trigger] a[j] && text_le(a[i], a[j]),
    decreases a.len(),
{
    if a.len() == 0 || b.len() == 0 {
        if a.len() > 0 {
            assert(a.to_set().contains(a[0]));
            assert(b.contains(a[0]));
        }
        if b.len() > 0 {
            assert(b.to_set().contains(b[0]));
            assert(a.contains(b[0]));
        }
        assert(a =~= b);
    } else {
        let x = a.last();
        let y = b.last();
        assert(a[a.len() - 1] == x && b[b.len() - 1] == y);
        assert(a.to_set().contains(x) && b.to_set().contains(y));
        assert(b.contains(x) && a.contains(y));
        let i = choose|i: int| 0 <= i < b.len() && b[i] == x;
        let j = choose|j: int| 0 <= j < a.len() && a[j] == y;
        lemma_text_le_total(x, x);
        if i < b.len() - 1 {
            assert(text_le(b[i], b[b.len() - 1]));
        }
        if j < a.len() - 1 {
            assert(text_le(a[j], a[a.len() - 1]));
        }
        lemma_text_le_antisymmetric(x, y);
        lemma_without_last(a, set);
        lemma_without_last(b, set);
        files_are_determined_by_the_set(a.drop_last(), b.drop_last(), set.remove(x));
        assert(a =~= a.drop_last().push(x));
        assert(b =~= b.drop_last().push(y));
    }
}

proof fn lemma_without_last(list: Seq<Seq<char>>, set: Set<Seq<char>>)
    requires
        is_listing(list, set),
        list.len() > 0,
    ensures
        is_listing(list.drop_last(), set.remove(list.last())),
{
    let l = list.drop_last();
    assert(ascending(l));
    assert forall|id: Seq<char>| l.to_set().contains(id) <==> set.remove(list.last()).contains(id) by {
        if l.contains(id) {
            let k = choose|k: int| 0 <= k < l.len() && l[k] == id;
            assert(list[k] == id && list[list.len() - 1] != id);
            assert(list.to_set().contains(id));
        }
        if set.contains(id) && id != list.last() {
            assert(list.to_set().contains(id));
            let k = choose|k: int| 0 <= k < list.len() && list[k] == id;
            assert(l[k] == id);
        }
    }
    assert(l.to_set() =~= set.remove(list.last()));
}
} // verus!
