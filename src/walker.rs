//! Depth-first traversal of a bucket's virtual directory tree, as a state
//! machine: it says which page to fetch next and takes each page in turn.
use vstd::prelude::*;

verus! {

/// A stored object as one listing page describes it.
pub struct Entry {
    pub key: Option<String>,
    pub size: Option<i64>,
}

/// What an [`Entry`] holds.
pub struct EntryModel {
    pub key: Option<Seq<char>>,
    pub size: Option<i64>,
}

/// The text of an optional string.
pub open spec fn opt_text(o: Option<String>) -> Option<Seq<char>> {
    match o {
        Some(s) => Some(s@),
        None => None,
    }
}

impl View for Entry {
    type V = EntryModel;

    open spec fn view(&self) -> EntryModel {
        EntryModel { key: opt_text(self.key), size: self.size }
    }
}

/// The models of a sequence of entries.
pub open spec fn entries_model(s: Seq<Entry>) -> Seq<EntryModel> {
    s.map_values(|e: Entry| e@)
}

/// The texts of a sequence of strings.
pub open spec fn texts(s: Seq<String>) -> Seq<Seq<char>> {
    s.map_values(|t: String| t@)
}

/// The texts of a sequence of optional strings.
pub open spec fn opt_texts(s: Seq<Option<String>>) -> Seq<Option<Seq<char>>> {
    s.map_values(|t: Option<String>| opt_text(t))
}

/// One page of a listing under a prefix split by the delimiter: the objects
/// directly under it, the next level of sub-prefixes, and the token that
/// asks for the following page.
pub struct Page {
    pub objects: Vec<Entry>,
    pub common_prefixes: Vec<Option<String>>,
    pub next_token: Option<String>,
}

/// What a [`Page`] holds.
pub struct PageModel {
    pub objects: Seq<EntryModel>,
    pub common_prefixes: Seq<Option<Seq<char>>>,
    pub next_token: Option<Seq<char>>,
}

impl View for Page {
    type V = PageModel;

    open spec fn view(&self) -> PageModel {
        PageModel {
            objects: entries_model(self.objects@),
            common_prefixes: opt_texts(self.common_prefixes@),
            next_token: opt_text(self.next_token),
        }
    }
}

/// A page request that failed; the message is for the log.
pub struct TransportError {
    pub message: String,
}

/// The model of the answer to a page request: `None` when it failed.
pub open spec fn answer_model(r: Result<Page, TransportError>) -> Option<PageModel> {
    match r {
        Ok(p) => Some(p@),
        Err(_) => None,
    }
}

/// The prefixes and objects found so far.
pub struct BucketObjects {
    prefixes: Vec<String>,
    objects: Vec<Entry>,
}

/// What a [`BucketObjects`] holds: prefixes in the order their subtrees were
/// finished, objects in the order they were listed.
pub struct ListingModel {
    pub prefixes: Seq<Seq<char>>,
    pub objects: Seq<EntryModel>,
}

impl View for BucketObjects {
    type V = ListingModel;

    closed spec fn view(&self) -> ListingModel {
        ListingModel { prefixes: texts(self.prefixes@), objects: entries_model(self.objects@) }
    }
}

impl BucketObjects {
    /// Nothing found yet.
    pub fn new() -> (r: BucketObjects)
        ensures
            r@.prefixes == Seq::<Seq<char>>::empty(),
            r@.objects == Seq::<EntryModel>::empty(),
    {
        let r = BucketObjects { prefixes: Vec::new(), objects: Vec::new() };
        proof {
            assert(r@.prefixes =~= Seq::<Seq<char>>::empty());
            assert(r@.objects =~= Seq::<EntryModel>::empty());
        }
        r
    }

    /// The prefixes found.
    pub fn prefixes(&self) -> (r: &Vec<String>)
        ensures
            texts(r@) == self@.prefixes,
    {
        &self.prefixes
    }

    /// The objects found.
    pub fn objects(&self) -> (r: &Vec<Entry>)
        ensures
            entries_model(r@) == self@.objects,
    {
        &self.objects
    }

    /// Gives up the objects found.
    pub fn into_objects(self) -> (r: Vec<Entry>)
        ensures
            entries_model(r@) == self@.objects,
    {
        self.objects
    }
}

/// Work left to the traversal.
enum Task {
    /// Fetch a page under `prefix`: the first when `token` is `None`.
    List { prefix: String, token: Option<String> },
    /// The subtree under `prefix` is finished: record the prefix.
    Record { prefix: String },
}

/// What a task stands for.
pub enum TaskModel {
    List { prefix: Seq<char>, token: Option<Seq<char>> },
    Record { prefix: Seq<char> },
}

impl View for Task {
    type V = TaskModel;

    closed spec fn view(&self) -> TaskModel {
        match self {
            Task::List { prefix, token } => TaskModel::List { prefix: prefix@, token: opt_text(*token) },
            Task::Record { prefix } => TaskModel::Record { prefix: prefix@ },
        }
    }
}

/// The whole state of a traversal. `tasks` is a stack whose top is its last
/// element.
pub struct WalkState {
    pub prefixes: Seq<Seq<char>>,
    pub objects: Seq<EntryModel>,
    pub request_count: nat,
    pub tasks: Seq<TaskModel>,
    pub failed: Seq<Seq<char>>,
}

/// The next request a traversal makes: the prefix and the continuation
/// token, or `None` when it has finished.
pub open spec fn next_request(st: WalkState) -> Option<(Seq<char>, Option<Seq<char>>)> {
    if st.tasks.len() > 0 {
        match st.tasks.last() {
            TaskModel::List { prefix, token } => Some((prefix, token)),
            TaskModel::Record { .. } => None,
        }
    } else {
        None
    }
}

/// A count of requests, kept within `u64`.
pub open spec fn capped(n: nat) -> nat {
    if n > u64::MAX {
        u64::MAX as nat
    } else {
        n
    }
}

/// Records every finished subtree at the top of the stack.
pub open spec fn drain(st: WalkState) -> WalkState
    decreases st.tasks.len(),
{
    if st.tasks.len() > 0 {
        match st.tasks.last() {
            TaskModel::Record { prefix } => drain(
                WalkState {
                    prefixes: st.prefixes.push(prefix),
                    tasks: st.tasks.drop_last(),
                    ..st
                },
            ),
            TaskModel::List { .. } => st,
        }
    } else {
        st
    }
}

/// The tasks that the sub-prefixes of one page call for, pushed so that
/// the first is on top: each is walked, then recorded, before the next.
/// A sub-prefix without text is passed over.
pub open spec fn child_tasks(cs: Seq<Option<Seq<char>>>) -> Seq<TaskModel>
    decreases cs.len(),
{
    if cs.len() == 0 {
        Seq::empty()
    } else {
        child_tasks(cs.drop_first()) + match cs[0] {
            Some(c) => seq![TaskModel::Record { prefix: c }, TaskModel::List { prefix: c, token: None }],
            None => Seq::empty(),
        }
    }
}

/// How many sub-prefixes of one page have a text.
pub open spec fn child_count(cs: Seq<Option<Seq<char>>>) -> nat
    decreases cs.len(),
{
    if cs.len() == 0 {
        0
    } else {
        child_count(cs.drop_first()) + if cs[0] is Some {
            1nat
        } else {
            0nat
        }
    }
}

/// Whether a page whose request carried `token` is followed by another: its
/// next token is present, not empty, and not the one just sent.
pub open spec fn has_more(token: Option<Seq<char>>, next: Option<Seq<char>>) -> bool {
    match next {
        Some(t) => t.len() > 0 && token != Some(t),
        None => false,
    }
}

/// The traversal begun at `prefix`: one more directory to list.
pub open spec fn start(st: WalkState, prefix: Seq<char>) -> WalkState {
    WalkState {
        tasks: st.tasks.push(TaskModel::List { prefix, token: None }),
        request_count: capped(st.request_count + 1),
        ..st
    }
}

/// What the answer to the pending request does to the traversal. A page
/// adds its objects, asks for the next page of the same prefix after every
/// sub-prefix has been walked, and walks each sub-prefix in order. A failed
/// request ends the listing of that prefix and is noted; the rest goes on.
pub open spec fn step(st: WalkState, answer: Option<PageModel>) -> WalkState {
    match next_request(st) {
        None => st,
        Some((prefix, token)) => {
            let rest = st.tasks.drop_last();
            match answer {
                Some(page) => {
                    let after = if has_more(token, page.next_token) {
                        rest.push(TaskModel::List { prefix, token: page.next_token })
                    } else {
                        rest
                    };
                    drain(
                        WalkState {
                            objects: st.objects + page.objects,
                            tasks: after + child_tasks(page.common_prefixes),
                            request_count: capped(
                                st.request_count + child_count(page.common_prefixes),
                            ),
                            ..st
                        },
                    )
                },
                None => drain(WalkState { failed: st.failed.push(prefix), tasks: rest, ..st }),
            }
        },
    }
}

/// The next thing to do for the traversal.
pub enum Action {
    /// List one page under `prefix`, continuing from `token` if any.
    Fetch { prefix: String, token: Option<String> },
    /// The traversal has finished.
    Done,
}

/// The request an action makes, if any.
pub open spec fn action_request(a: Action) -> Option<(Seq<char>, Option<Seq<char>>)> {
    match a {
        Action::Fetch { prefix, token } => Some((prefix@, opt_text(token))),
        Action::Done => None,
    }
}

/// A traversal of one bucket, with what it has found so far.
pub struct BucketRequest {
    bucket: String,
    items: BucketObjects,
    request_count: u64,
    tasks: Vec<Task>,
    failed: Vec<String>,
}

impl View for BucketRequest {
    type V = WalkState;

    closed spec fn view(&self) -> WalkState {
        WalkState {
            prefixes: self.items@.prefixes,
            objects: self.items@.objects,
            request_count: self.request_count as nat,
            tasks: self.tasks@.map_values(|t: Task| t@),
            failed: texts(self.failed@),
        }
    }
}

impl BucketRequest {
    /// A traversal of `bucket` that has not begun.
    pub fn new(bucket: String) -> (r: BucketRequest)
        ensures
            r.bucket_text() == bucket@,
            r@.prefixes == Seq::<Seq<char>>::empty(),
            r@.objects == Seq::<EntryModel>::empty(),
            r@.request_count == 0,
            r@.tasks == Seq::<TaskModel>::empty(),
            r@.failed == Seq::<Seq<char>>::empty(),
    {
        let r = BucketRequest {
            bucket,
            items: BucketObjects::new(),
            request_count: 0,
            tasks: Vec::new(),
            failed: Vec::new(),
        };
        proof {
            assert(r@.tasks =~= Seq::<TaskModel>::empty());
            assert(r@.failed =~= Seq::<Seq<char>>::empty());
        }
        r
    }

    /// The name of the bucket.
    pub closed spec fn bucket_text(&self) -> Seq<char> {
        self.bucket@
    }

    /// The name of the bucket.
    pub fn bucket(&self) -> (r: &String)
        ensures
            r@ == self.bucket_text(),
    {
        &self.bucket
    }

    /// How many directories have been listed or are waiting to be.
    pub fn request_count(&self) -> (r: u64)
        ensures
            r == self@.request_count,
    {
        self.request_count
    }

    /// The prefixes whose listing failed, in the order of the failures.
    pub fn failed_prefixes(&self) -> (r: &Vec<String>)
        ensures
            texts(r@) == self@.failed,
    {
        &self.failed
    }

    /// What has been found so far.
    pub fn items(&self) -> (r: &BucketObjects)
        ensures
            r@.prefixes == self@.prefixes,
            r@.objects == self@.objects,
    {
        &self.items
    }

    /// Gives up what has been found.
    pub fn into_items(self) -> (r: BucketObjects)
        ensures
            r@.prefixes == self@.prefixes,
            r@.objects == self@.objects,
    {
        self.items
    }

    fn top_is_record(&self) -> (r: bool)
        ensures
            r == (self@.tasks.len() > 0 && self@.tasks.last() is Record),
    {
        let n = self.tasks.len();
        if n == 0 {
            false
        } else {
            match &self.tasks[n - 1] {
                Task::Record { .. } => true,
                Task::List { .. } => false,
            }
        }
    }

    fn drain_records(&mut self)
        ensures
            final(self)@ == drain(old(self)@),
            final(self).bucket_text() == old(self).bucket_text(),
    {
        let mut more = self.top_is_record();
        while more
            invariant
                drain(self@) == drain(old(self)@),
                self.bucket_text() == old(self).bucket_text(),
                more == (self@.tasks.len() > 0 && self@.tasks.last() is Record),
            decreases self.tasks@.len(),
        {
            let ghost before = self@;
            let t = self.tasks.pop();
            match t {
                Some(Task::Record { prefix }) => {
                    self.items.prefixes.push(prefix);
                    proof {
                        assert(self@.tasks =~= before.tasks.drop_last());
                        assert(self@.prefixes =~= before.prefixes.push(prefix@));
                        assert(self@ == WalkState {
                            prefixes: before.prefixes.push(prefix@),
                            tasks: before.tasks.drop_last(),
                            ..before
                        });
                    }
                },
                _ => {},
            }
            more = self.top_is_record();
        }
    }

    /// The request to make next, or `Done` when the traversal has finished.
    pub fn next_action(&self) -> (a: Action)
        ensures
            action_request(a) == next_request(self@),
    {
        let n = self.tasks.len();
        if n == 0 {
            Action::Done
        } else {
            match &self.tasks[n - 1] {
                Task::List { prefix, token } => {
                    let token = match token {
                        Some(t) => Some(t.clone()),
                        None => None,
                    };
                    Action::Fetch { prefix: prefix.clone(), token }
                },
                Task::Record { .. } => Action::Done,
            }
        }
    }

    /// Begins listing everything under `prefix` (empty for the whole
    /// bucket) and says what to fetch first.
    pub fn list_objects(&mut self, prefix: &str) -> (a: Action)
        ensures
            final(self)@ == start(old(self)@, prefix@),
            final(self).bucket_text() == old(self).bucket_text(),
            action_request(a) == next_request(final(self)@),
    {
        let ghost before = self@;
        self.tasks.push(Task::List { prefix: String::from_str(prefix), token: None });
        self.request_count = self.request_count.saturating_add(1);
        proof {
            assert(self@.tasks =~= before.tasks.push(TaskModel::List { prefix: prefix@, token: None }));
            assert(self@ == start(before, prefix@));
        }
        self.next_action()
    }

    /// Takes the answer to the request last asked for and says what to
    /// fetch next. An answer that comes when nothing was asked is ignored.
    pub fn on_page(&mut self, answer: Result<Page, TransportError>) -> (a: Action)
        ensures
            final(self)@ == step(old(self)@, answer_model(answer)),
            final(self).bucket_text() == old(self).bucket_text(),
            action_request(a) == next_request(final(self)@),
    {
        let ghost st = self@;
        let n = self.tasks.len();
        if n == 0 {
            return self.next_action();
        }
        match &self.tasks[n - 1] {
            Task::Record { .. } => {
                return self.next_action();
            },
            Task::List { .. } => {},
        }
        let (prefix, token) = match self.tasks.pop() {
            Some(Task::List { prefix, token }) => (prefix, token),
            _ => {
                return self.next_action();
            },
        };
        let ghost rest = st.tasks.drop_last();
        assert(self@.tasks =~= rest);
        match answer {
            Ok(page) => {
                let ghost pm = page@;
                let Page { mut objects, common_prefixes, next_token } = page;
                self.items.objects.append(&mut objects);
                assert(entries_model(self.items.objects@) =~= st.objects + pm.objects);
                let more = match &next_token {
                    Some(t) => {
                        let same = match &token {
                            Some(c) => c.eq(t),
                            None => false,
                        };
                        t.as_str().unicode_len() > 0 && !same
                    },
                    None => false,
                };
                if more {
                    self.tasks.push(Task::List { prefix, token: next_token });
                }
                let ghost after = self@.tasks;
                assert(after == if has_more(opt_text(token), pm.next_token) {
                    rest.push(TaskModel::List { prefix: prefix@, token: pm.next_token })
                } else {
                    rest
                });
                let ghost cs = pm.common_prefixes;
                let ghost count0 = st.request_count;
                let mut i: usize = common_prefixes.len();
                assert(cs.subrange(i as int, cs.len() as int) =~= Seq::<Option<Seq<char>>>::empty());
                while i > 0
                    invariant
                        i <= common_prefixes@.len(),
                        cs == opt_texts(common_prefixes@),
                        self@.tasks == after + child_tasks(cs.subrange(i as int, cs.len() as int)),
                        self@.request_count == capped(count0 + child_count(cs.subrange(i as int, cs.len() as int))),
                        self@.objects == st.objects + pm.objects,
                        self@.prefixes == st.prefixes,
                        self@.failed == st.failed,
                        self.bucket_text() == old(self).bucket_text(),
                    decreases i,
                {
                    let ghost before = self@;
                    let ghost tail = cs.subrange(i as int, cs.len() as int);
                    i = i - 1;
                    let ghost whole = cs.subrange(i as int, cs.len() as int);
                    assert(whole.drop_first() =~= tail);
                    assert(whole[0] == opt_text(common_prefixes@[i as int]));
                    match &common_prefixes[i] {
                        Some(c) => {
                            self.tasks.push(Task::Record { prefix: c.clone() });
                            self.tasks.push(Task::List { prefix: c.clone(), token: None });
                            self.request_count = self.request_count.saturating_add(1);
                            let ghost pair = seq![
                                TaskModel::Record { prefix: c@ },
                                TaskModel::List { prefix: c@, token: None },
                            ];
                            assert(child_tasks(whole) == child_tasks(tail) + pair);
                            assert(self@.tasks =~= before.tasks + pair);
                            assert(self@.tasks =~= after + child_tasks(whole));
                        },
                        None => {
                            assert(self@.tasks =~= after + child_tasks(whole));
                        },
                    }
                }
                assert(cs.subrange(0, cs.len() as int) =~= cs);
                self.drain_records();
            },
            Err(_) => {
                self.failed.push(prefix);
                assert(self@.failed =~= st.failed.push(prefix@));
                self.drain_records();
            },
        }
        self.next_action()
    }
}

} // verus!
