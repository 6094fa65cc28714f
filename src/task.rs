//! Tasks: a description, the tags and contexts read from it, a completion
//! state, and an ordered map of subtasks.
use crate::clock::{fresh_id, now_millis};
use crate::ordered_map::{
    has_key, inserted, key_index, keys_of, lemma_inserted_unique, lemma_key_index, lemma_key_index_found,
    lemma_removed_unique, removed, shown, unique_keys,
};
use crate::text::{distinct_strings, has_string, has_text, is_space, is_space_char, lists_set};
use std::rc::Rc;
use vstd::prelude::*;

verus! {

/// `d[i..j]` is a whole word of `d`: a maximal run of non-space characters.
pub open spec fn is_word(d: Seq<char>, i: int, j: int) -> bool {
    &&& 0 <= i < j <= d.len()
    &&& (i == 0 || is_space(d[i - 1]))
    &&& (j == d.len() || is_space(d[j]))
    &&& forall|k: int| i <= k < j ==> !is_space(#[trigger] d[k])
}

/// The words of `d` that begin with `mark`, each without its mark.
pub open spec fn marked_words(d: Seq<char>, mark: char) -> Set<Seq<char>> {
    Set::new(
        |t: Seq<char>|
            exists|i: int, j: int| #[trigger] is_word(d, i, j) && d[i] == mark && t == d.subrange(i + 1, j),
    )
}

/// The tags of a description: its words that begin with `#`.
pub open spec fn tags_of(d: Seq<char>) -> Set<Seq<char>> {
    marked_words(d, '#')
}

/// The contexts of a description: its words that begin with `@`.
pub open spec fn contexts_of(d: Seq<char>) -> Set<Seq<char>> {
    marked_words(d, '@')
}

proof fn lemma_word_end_unique(d: Seq<char>, i: int, j: int, b: int)
    requires
        is_word(d, i, j),
        is_word(d, i, b),
    ensures
        j == b,
{
    if b < j {
        assert(!is_space(d[b]));
    } else if j < b {
        assert(!is_space(d[j]));
    }
}

/// The distinct words of `d` that begin with `mark`, without the mark, in the
/// order of their first occurrence.
pub fn marked_words_in(d: &str, mark: char) -> (r: Vec<String>)
    ensures
        lists_set(r@, marked_words(d@, mark)),
{
    let n = d.unicode_len();
    let mut out: Vec<String> = Vec::new();
    let mut i: usize = 0;
    while i < n
        invariant
            n == d@.len(),
            i <= n,
            i == 0 || i == n || is_space(d@[i - 1]),
            distinct_strings(out@),
            forall|w: Seq<char>|
                has_string(out@, w) <==> exists|a: int, b: int|
                    #[trigger] is_word(d@, a, b) && a < i && d@[a] == mark && w == d@.subrange(a + 1, b),
        decreases n - i,
    {
        let c = d.get_char(i);
        if is_space_char(c) {
            assert forall|w: Seq<char>|
                (exists|a: int, b: int|
                    #[trigger] is_word(d@, a, b) && a < i + 1 && d@[a] == mark && w == d@.subrange(a + 1, b))
                implies has_string(out@, w) by {
                let (a, b) = choose|a: int, b: int|
                    #[trigger] is_word(d@, a, b) && a < i + 1 && d@[a] == mark && w == d@.subrange(a + 1, b);
                assert(a != i);
            }
            i = i + 1;
        } else {
            let mut j: usize = i + 1;
            while j < n && !is_space_char(d.get_char(j))
                invariant
                    n == d@.len(),
                    i < j <= n,
                    forall|k: int| i <= k < j ==> !is_space(#[trigger] d@[k]),
                decreases n - j,
            {
                j = j + 1;
            }
            assert(is_word(d@, i as int, j as int));
            let ghost before = out@;
            if c == mark {
                let t = String::from_str(d.substring_char(i + 1, j));
                if !has_text(&out, &t) {
                    out.push(t);
                    assert(distinct_strings(out@)) by {
                        assert forall|x: int, y: int|
                            0 <= x < out@.len() && 0 <= y < out@.len() && x != y implies out@[x]@ != out@[y]@ by {
                            if x < before.len() && y < before.len() {
                                assert(out@[x] == before[x] && out@[y] == before[y]);
                            } else if x < before.len() {
                                assert(out@[x] == before[x]);
                            } else {
                                assert(out@[y] == before[y]);
                            }
                        }
                    }
                }
            }
            let next: usize = if j < n { j + 1 } else { n };
            assert forall|w: Seq<char>|
                has_string(out@, w) <==> exists|a: int, b: int|
                    #[trigger] is_word(d@, a, b) && a < next && d@[a] == mark && w == d@.subrange(a + 1, b) by {
                if has_string(out@, w) {
                    if !has_string(before, w) {
                        let k = choose|k: int| 0 <= k < out@.len() && out@[k]@ == w;
                        if k < before.len() {
                            assert(out@[k] == before[k]);
                        }
                        assert(is_word(d@, i as int, j as int) && (i as int) < next);
                    }
                }
                if exists|a: int, b: int|
                    #[trigger] is_word(d@, a, b) && a < next && d@[a] == mark && w == d@.subrange(a + 1, b) {
                    let (a, b) = choose|a: int, b: int|
                        #[trigger] is_word(d@, a, b) && a < next && d@[a] == mark && w == d@.subrange(a + 1, b);
                    if a >= i {
                        if a > i {
                            if a < j {
                                assert(!is_space(d@[a - 1]));
                            } else {
                                assert(a == j);
                                assert(is_space(d@[a]));
                            }
                        }
                        assert(a == i);
                        lemma_word_end_unique(d@, i as int, j as int, b);
                        if !has_string(before, w) {
                            assert(out@.last()@ == w);
                        } else {
                            let k = choose|k: int| 0 <= k < before.len() && before[k]@ == w;
                            assert(out@[k] == before[k]);
                        }
                    } else {
                        assert(has_string(before, w));
                        let k = choose|k: int| 0 <= k < before.len() && before[k]@ == w;
                        assert(out@[k] == before[k]);
                    }
                }
            }
            i = next;
        }
    }
    assert forall|w: Seq<char>| has_string(out@, w) <==> #[trigger] marked_words(d@, mark).contains(w) by {
        if marked_words(d@, mark).contains(w) {
            let (a, b) = choose|a: int, b: int|
                #[trigger] is_word(d@, a, b) && d@[a] == mark && w == d@.subrange(a + 1, b);
            assert(a < i);
        }
    }
    out
}

/// A to-do item and its subtasks.
#[derive(Debug, PartialEq)]
pub struct Task {
    /// Identity, fixed at creation; the key of the task in its parent's map.
    pub id: u128,
    pub description: Rc<String>,
    /// The tags of the description, each once.
    pub tags: Rc<Vec<String>>,
    /// The contexts of the description, each once.
    pub contexts: Rc<Vec<String>>,
    /// When the task was completed, in milliseconds since the Unix epoch, or
    /// `None` while it is open.
    pub completed: Option<i64>,
    pub subtasks: TaskMap,
}

/// The subtasks of a task: an ordered map from ids to tasks, with the same
/// model and contracts as `PersistentIndexMap`. It is a type of its own because
/// a recursive type can hold itself only through a non-generic container here.
#[derive(Debug, PartialEq)]
pub struct TaskMap {
    entries: Rc<Vec<(u128, Rc<Task>)>>,
}

impl View for TaskMap {
    type V = Seq<(u128, Task)>;

    closed spec fn view(&self) -> Seq<(u128, Task)> {
        shown(self.entries@)
    }
}

impl TaskMap {
    #[verifier::type_invariant]
    closed spec fn keys_are_unique(&self) -> bool {
        unique_keys(self@)
    }

    /// Every map has unique keys.
    pub fn note_unique(&self)
        ensures
            unique_keys(self@),
    {
        proof { use_type_invariant(self); }
    }

    /// A task held by the map is smaller than the map.
    pub proof fn lemma_value_decreases(&self, i: int)
        requires
            0 <= i < self@.len(),
        ensures
            decreases_to!(self => self@[i].1),
    {
        let e = self.entries@[i];
        assert(self@[i].1 == *e.1);
        assert(decreases_to!(*self.entries => self.entries@[i]));
    }

    fn copy_entries(&self) -> (r: Vec<(u128, Rc<Task>)>)
        ensures
            shown(r@) == self@,
    {
        let n = self.entries.len();
        let mut out: Vec<(u128, Rc<Task>)> = Vec::new();
        let mut i: usize = 0;
        while i < n
            invariant
                n == self.entries@.len(),
                i <= n,
                out@.len() == i,
                forall|j: int| 0 <= j < i ==> (#[trigger] out@[j]).0 == self.entries@[j].0 && *out@[j].1 == *self.entries@[j].1,
            decreases n - i,
        {
            let e = &self.entries[i];
            out.push((e.0, e.1.clone()));
            i = i + 1;
        }
        assert(shown(out@) =~= self@);
        out
    }

    /// An empty map.
    pub fn new() -> (r: Self)
        ensures
            r@ == Seq::<(u128, Task)>::empty(),
    {
        let r = TaskMap { entries: Rc::new(Vec::new()) };
        assert(r@ =~= Seq::<(u128, Task)>::empty());
        r
    }

    /// A map equal to this one (the two share all their data).
    pub fn share(&self) -> (r: Self)
        ensures
            r == *self,
            r@ == self@,
    {
        proof { use_type_invariant(self); }
        TaskMap { entries: self.entries.clone() }
    }

    /// The number of entries.
    pub fn len(&self) -> (r: usize)
        ensures
            r == self@.len(),
    {
        self.entries.len()
    }

    pub fn is_empty(&self) -> (r: bool)
        ensures
            r == (self@.len() == 0),
    {
        self.entries.len() == 0
    }

    /// The position of `key`, if it is present.
    pub fn get_index(&self, key: &u128) -> (r: Option<usize>)
        ensures
            r.is_some() == has_key(self@, *key),
            r.is_some() ==> r.unwrap() as int == key_index(self@, *key),
    {
        proof { use_type_invariant(self); }
        let n = self.entries.len();
        let mut i: usize = 0;
        while i < n
            invariant
                n == self@.len(),
                i <= n,
                unique_keys(self@),
                forall|j: int| 0 <= j < i ==> self@[j].0 != *key,
            decreases n - i,
        {
            if self.entries[i].0 == *key {
                proof { lemma_key_index(self@, *key, i as int); }
                return Some(i);
            }
            i = i + 1;
        }
        None
    }

    /// Whether `key` is present.
    pub fn contains_key(&self, key: &u128) -> (r: bool)
        ensures
            r == has_key(self@, *key),
    {
        self.get_index(key).is_some()
    }

    /// The task with id `key`, if it is present.
    pub fn get(&self, key: &u128) -> (r: Option<&Task>)
        ensures
            r.is_some() == has_key(self@, *key),
            r.is_some() ==> *r.unwrap() == self@[key_index(self@, *key)].1,
    {
        match self.get_index(key) {
            Some(i) => {
                proof { lemma_key_index_found(self@, *key); }
                let v: &Task = &*self.entries[i].1;
                assert(*v == self@[i as int].1);
                Some(v)
            },
            None => None,
        }
    }

    /// The key at position `index`, if there is one.
    pub fn get_key_at_index(&self, index: usize) -> (r: Option<&u128>)
        ensures
            r.is_some() == (index < self@.len()),
            r.is_some() ==> *r.unwrap() == self@[index as int].0,
    {
        if index < self.entries.len() {
            Some(&self.entries[index].0)
        } else {
            None
        }
    }

    /// The task at position `index`; `index` must be in range.
    pub fn value_at(&self, index: usize) -> (r: &Task)
        requires
            index < self@.len(),
        ensures
            *r == self@[index as int].1,
    {
        &*self.entries[index].1
    }

    /// The map with `key` bound to `value`. A new key goes last; an existing key
    /// keeps its position.
    pub fn insert(&self, key: u128, value: Task) -> (r: Self)
        ensures
            r@ == inserted(self@, key, value),
    {
        proof { use_type_invariant(self); }
        let mut out = self.copy_entries();
        let ghost s = self@;
        proof { lemma_inserted_unique(s, key, value); }
        match self.get_index(&key) {
            Some(i) => {
                proof { lemma_key_index_found(s, key); }
                out.set(i, (key, Rc::new(value)));
                assert(shown(out@) =~= inserted(s, key, value));
            },
            None => {
                out.push((key, Rc::new(value)));
                assert(shown(out@) =~= inserted(s, key, value));
            },
        }
        TaskMap { entries: Rc::new(out) }
    }

    /// The map without `key`; the other entries keep their order.
    pub fn remove(&self, key: &u128) -> (r: Self)
        ensures
            r@ == removed(self@, *key),
    {
        proof { use_type_invariant(self); }
        let ghost s = self@;
        proof { lemma_removed_unique(s, *key); }
        match self.get_index(key) {
            Some(i) => {
                proof { lemma_key_index_found(s, *key); }
                let mut out = self.copy_entries();
                let ghost before = out@;
                out.remove(i);
                assert(out@ == before.remove(i as int));
                assert forall|j: int| 0 <= j < out@.len() implies #[trigger] shown(out@)[j] == removed(s, *key)[j] by {
                    assert(key_index(s, *key) == i as int);
                    assert(removed(s, *key) == s.remove(i as int));
                    if j < i {
                        assert(out@[j] == before[j]);
                        assert(shown(before)[j] == s[j]);
                    } else {
                        assert(out@[j] == before[j + 1]);
                        assert(shown(before)[j + 1] == s[j + 1]);
                    }
                }
                assert(shown(out@) =~= removed(s, *key));
                TaskMap { entries: Rc::new(out) }
            },
            None => self.share(),
        }
    }

    /// The keys, in order.
    pub fn keys_to_vec(&self) -> (r: Vec<u128>)
        ensures
            r@ == keys_of(self@),
    {
        let n = self.entries.len();
        let mut out: Vec<u128> = Vec::new();
        let mut i: usize = 0;
        while i < n
            invariant
                n == self@.len(),
                i <= n,
                out@ == keys_of(self@).subrange(0, i as int),
            decreases n - i,
        {
            out.push(self.entries[i].0);
            i = i + 1;
            assert(out@ =~= keys_of(self@).subrange(0, i as int));
        }
        assert(out@ =~= keys_of(self@));
        out
    }
}

/// The tags and contexts of `t` are those of its description.
pub open spec fn labels_match(t: Task) -> bool {
    &&& lists_set(t.tags@, tags_of(t.description@))
    &&& lists_set(t.contexts@, contexts_of(t.description@))
}

/// `a` and `b` differ at most in the completion state of their tasks: same ids,
/// descriptions, tags, contexts, and subtasks in the same order.
pub open spec fn same_shape(a: Task, b: Task) -> bool
    decreases a,
{
    &&& a.id == b.id
    &&& a.description == b.description
    &&& a.tags == b.tags
    &&& a.contexts == b.contexts
    &&& keys_of(a.subtasks@) == keys_of(b.subtasks@)
    &&& forall|i: int|
        0 <= i < a.subtasks@.len() ==> #[trigger] same_shape_at(a, b, i)
}

/// The subtasks at position `i` of `a` and `b` have the same shape.
pub open spec fn same_shape_at(a: Task, b: Task, i: int) -> bool
    decreases a, 0int,
{
    if 0 <= i < a.subtasks@.len() {
        proof { a.subtasks.lemma_value_decreases(i); }
        same_shape(a.subtasks@[i].1, b.subtasks@[i].1)
    } else {
        true
    }
}

/// Every task of the tree `t` has completion state `c`.
pub open spec fn all_marked(t: Task, c: Option<i64>) -> bool
    decreases t,
{
    &&& t.completed == c
    &&& forall|i: int| #![trigger t.subtasks@[i]] 0 <= i < t.subtasks@.len() ==> marked_at(t, i, c)
}

/// The subtree at position `i` of `t` has completion state `c` throughout.
pub open spec fn marked_at(t: Task, i: int, c: Option<i64>) -> bool
    decreases t, 0int,
{
    if 0 <= i < t.subtasks@.len() {
        proof { t.subtasks.lemma_value_decreases(i); }
        all_marked(t.subtasks@[i].1, c)
    } else {
        true
    }
}

impl Task {
    /// A task with id `id` and description `description`, open, without subtasks.
    pub fn new_with_id(description: &str, id: u128) -> (r: Task)
        ensures
            r.id == id,
            r.description@ == description@,
            labels_match(r),
            r.completed is None,
            r.subtasks@.len() == 0,
    {
        let tags = marked_words_in(description, '#');
        let contexts = marked_words_in(description, '@');
        Task {
            id,
            description: Rc::new(String::from_str(description)),
            tags: Rc::new(tags),
            contexts: Rc::new(contexts),
            completed: None,
            subtasks: TaskMap::new(),
        }
    }

    /// A task with a fresh id and description `description`, open, without subtasks.
    pub fn new(description: &str) -> (r: Task)
        ensures
            r.description@ == description@,
            labels_match(r),
            r.completed is None,
            r.subtasks@.len() == 0,
    {
        Self::new_with_id(description, fresh_id())
    }

    /// The same task (the two share all their data).
    pub fn share(&self) -> (r: Task)
        ensures
            r == *self,
    {
        Task {
            id: self.id,
            description: self.description.clone(),
            tags: self.tags.clone(),
            contexts: self.contexts.clone(),
            completed: self.completed,
            subtasks: self.subtasks.share(),
        }
    }

    /// The task with a new description, and the tags and contexts read from it.
    pub fn with_description(&self, new_description: &str) -> (r: Task)
        ensures
            r.id == self.id,
            r.description@ == new_description@,
            labels_match(r),
            r.completed == self.completed,
            r.subtasks@ == self.subtasks@,
    {
        let tags = marked_words_in(new_description, '#');
        let contexts = marked_words_in(new_description, '@');
        Task {
            id: self.id,
            description: Rc::new(String::from_str(new_description)),
            tags: Rc::new(tags),
            contexts: Rc::new(contexts),
            completed: self.completed,
            subtasks: self.subtasks.share(),
        }
    }

    /// The task with completion state `c` on itself and on every task below it.
    pub fn with_subtree_completion(&self, c: Option<i64>) -> (r: Task)
        ensures
            same_shape(r, *self),
            all_marked(r, c),
        decreases self,
    {
        let n = self.subtasks.len();
        let ghost old_subs = self.subtasks@;
        self.subtasks.note_unique();
        let mut subs: TaskMap = TaskMap::new();
        let mut i: usize = 0;
        while i < n
            invariant
                n == old_subs.len(),
                old_subs == self.subtasks@,
                unique_keys(old_subs),
                i <= n,
                subs@.len() == i,
                keys_of(subs@) == keys_of(old_subs).subrange(0, i as int),
                forall|j: int| 0 <= j < i ==> same_shape(#[trigger] subs@[j].1, old_subs[j].1),
                forall|j: int| 0 <= j < i ==> all_marked(#[trigger] subs@[j].1, c),
            decreases n - i,
        {
            let key = *self.subtasks.get_key_at_index(i).unwrap();
            proof { self.subtasks.lemma_value_decreases(i as int); }
            let child = self.subtasks.value_at(i).with_subtree_completion(c);
            let ghost prev = subs@;
            proof {
                if has_key(prev, key) {
                    let k = choose|k: int| 0 <= k < prev.len() && prev[k].0 == key;
                    assert(keys_of(prev)[k] == keys_of(old_subs)[k]);
                    assert(old_subs[k].0 == key);
                }
            }
            subs = subs.insert(key, child);
            assert(subs@ == prev.push((key, child)));
            assert(keys_of(subs@) =~= keys_of(old_subs).subrange(0, i + 1));
            i = i + 1;
        }
        assert(keys_of(subs@) =~= keys_of(old_subs));
        let r = Task {
            id: self.id,
            description: self.description.clone(),
            tags: self.tags.clone(),
            contexts: self.contexts.clone(),
            completed: c,
            subtasks: subs,
        };
        assert forall|j: int| 0 <= j < r.subtasks@.len() implies #[trigger] same_shape_at(r, *self, j) by {}
        assert forall|j: int| 0 <= j < r.subtasks@.len() implies #[trigger] marked_at(r, j, c) by {}
        r
    }

    /// The task with its completion flipped: an open task becomes completed now,
    /// a completed one open, and every task below it takes the same new state.
    pub fn with_flip_completed(&self) -> (r: Task)
        ensures
            same_shape(r, *self),
            r.completed is Some <==> self.completed is None,
            all_marked(r, r.completed),
    {
        if self.completed.is_some() {
            self.with_subtree_completion(None)
        } else {
            let now = now_millis();
            self.with_subtree_completion(Some(now))
        }
    }

    /// The task as one line: `[x] ` or `[ ] ` followed by its description.
    pub fn display(&self) -> (r: String)
        ensures
            r@ == (if self.completed is Some { seq!['[', 'x', ']', ' '] } else { seq!['[', ' ', ']', ' '] })
                + self.description@,
    {
        let status = if self.completed.is_some() {
            String::from_str("[x] ")
        } else {
            String::from_str("[ ] ")
        };
        proof {
            reveal_strlit("[x] ");
            reveal_strlit("[ ] ");
        }
        status.concat(self.description.as_str())
    }
}

} // verus!
