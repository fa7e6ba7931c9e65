use vstd::prelude::*;

verus! {

/// The sum of the lengths of the chunks received.
pub open spec fn sum_lens(lens: Seq<usize>) -> int
    decreases lens.len(),
{
    if lens.len() == 0 {
        0
    } else {
        sum_lens(lens.drop_last()) + lens.last()
    }
}

/// Counts the bytes of an upload from the lengths of the chunks that its fields arrived in.
pub fn file_length(chunk_lens: &Vec<usize>) -> (r: usize)
    requires
        sum_lens(chunk_lens@) <= usize::MAX,
    ensures
        r == sum_lens(chunk_lens@),
{
    let mut count: usize = 0;
    let mut i: usize = 0;
    while i < chunk_lens.len()
        invariant
            0 <= i <= chunk_lens.len(),
            count == sum_lens(chunk_lens@.take(i as int)),
            sum_lens(chunk_lens@) <= usize::MAX,
        decreases chunk_lens.len() - i,
    {
        proof {
            assert(chunk_lens@.take(i + 1).drop_last() =~= chunk_lens@.take(i as int));
            lemma_sum_lens_prefix(chunk_lens@, i + 1);
        }
        count = count + chunk_lens[i];
        i = i + 1;
    }
    proof {
        assert(chunk_lens@.take(chunk_lens.len() as int) =~= chunk_lens@);
    }
    count
}

/// A prefix sums to no more than the whole.
pub proof fn lemma_sum_lens_prefix(lens: Seq<usize>, k: int)
    requires
        0 <= k <= lens.len(),
    ensures
        sum_lens(lens.take(k)) <= sum_lens(lens),
    decreases lens.len(),
{
    if k < lens.len() {
        assert(lens.drop_last().take(k) =~= lens.take(k));
        lemma_sum_lens_prefix(lens.drop_last(), k);
    } else {
        assert(lens.take(k) =~= lens);
    }
}

/// How many bytes of one file have arrived so far.
pub struct FileProgress {
    pub name: String,
    pub total: usize,
}

/// The running byte count of each file being uploaded, by file name.
pub struct ProgressTracker {
    files: Vec<FileProgress>,
}

impl ProgressTracker {
    /// The totals, by file name.
    pub closed spec fn totals(&self) -> Map<Seq<char>, int> {
        Map::new(
            |n: Seq<char>| exists|i: int| 0 <= i < self.files.len() && #[trigger] self.files[i].name@ == n,
            |n: Seq<char>|
                self.files[choose|i: int| 0 <= i < self.files.len() && #[trigger] self.files[i].name@ == n].total as int,
        )
    }

    /// No file name is listed twice.
    pub closed spec fn wf(&self) -> bool {
        forall|i: int, j: int|
            0 <= i < j < self.files.len() ==> #[trigger] self.files[i].name@ != #[trigger] self.files[j].name@
    }

    /// The total of a file, zero for one not seen yet.
    pub open spec fn total_of(&self, name: Seq<char>) -> int {
        if self.totals().contains_key(name) {
            self.totals()[name]
        } else {
            0
        }
    }

    pub fn new() -> (r: ProgressTracker)
        ensures
            r.wf(),
            r.totals() == Map::<Seq<char>, int>::empty(),
    {
        let r = ProgressTracker { files: Vec::new() };
        proof {
            assert(r.totals() =~= Map::<Seq<char>, int>::empty());
        }
        r
    }

    /// Where a file stands in the list, if it is there.
    fn find(&self, name: &str) -> (r: Option<usize>)
        requires
            self.wf(),
        ensures
            r matches Some(i) ==> i < self.files.len() && self.files[i as int].name@ == name@,
            r is None ==> forall|i: int| 0 <= i < self.files.len() ==> self.files[i].name@ != name@,
    {
        let target = name.to_owned();
        let mut i: usize = 0;
        while i < self.files.len()
            invariant
                0 <= i <= self.files.len(),
                target@ == name@,
                forall|j: int| 0 <= j < i ==> self.files[j].name@ != name@,
            decreases self.files.len() - i,
        {
            if self.files[i].name == target {
                return Some(i);
            }
            i = i + 1;
        }
        None
    }

    /// What a file's total is now.
    pub fn total_for(&self, name: &str) -> (r: usize)
        requires
            self.wf(),
        ensures
            r == self.total_of(name@),
    {
        match self.find(name) {
            Some(i) => {
                proof {
                    self.lemma_total_at(i as int);
                }
                self.files[i].total
            },
            None => {
                proof {
                    assert(!self.totals().contains_key(name@));
                }
                0
            },
        }
    }

    proof fn lemma_total_at(&self, i: int)
        requires
            self.wf(),
            0 <= i < self.files.len(),
        ensures
            self.totals().contains_key(self.files[i].name@),
            self.totals()[self.files[i].name@] == self.files[i].total,
    {
        let n = self.files[i].name@;
        assert(self.totals().contains_key(n));
        let k = choose|k: int| 0 <= k < self.files.len() && #[trigger] self.files[k].name@ == n;
        if k != i {
            if k < i {
                assert(self.files[k].name@ != self.files[i].name@);
            } else {
                assert(self.files[i].name@ != self.files[k].name@);
            }
        }
    }

    /// Adds the length of a chunk that arrived for a file and returns the file's new total.
    pub fn add_chunk(&mut self, filename: &str, len: usize) -> (r: usize)
        requires
            old(self).wf(),
            old(self).total_of(filename@) + len <= usize::MAX,
        ensures
            final(self).wf(),
            r == old(self).total_of(filename@) + len,
            final(self).totals() == old(self).totals().insert(filename@, r as int),
    {
        match self.find(filename) {
            Some(i) => {
                proof {
                    self.lemma_total_at(i as int);
                }
                let ghost before = *self;
                let new_total = self.files[i].total + len;
                let name = self.files[i].name.clone();
                self.files.set(i, FileProgress { name, total: new_total });
                proof {
                    assert(self.files@ == before.files@.update(i as int, self.files[i as int]));
                    assert forall|a: int, b: int|
                        0 <= a < b < self.files.len() implies #[trigger] self.files[a].name@
                        != #[trigger] self.files[b].name@ by {
                        assert(before.files[a].name@ != before.files[b].name@);
                    }
                    assert forall|n: Seq<char>| #![auto]
                        self.totals().contains_key(n) == before.totals().insert(filename@, new_total as int).contains_key(n) by {
                        if n != filename@ && before.totals().contains_key(n) {
                            let k = choose|k: int| 0 <= k < before.files.len() && #[trigger] before.files[k].name@ == n;
                            assert(self.files[k].name@ == n);
                        }
                        if n != filename@ && self.totals().contains_key(n) {
                            let k = choose|k: int| 0 <= k < self.files.len() && #[trigger] self.files[k].name@ == n;
                            assert(before.files[k].name@ == n);
                        }
                        if n == filename@ {
                            assert(self.files[i as int].name@ == n);
                        }
                    }
                    assert forall|n: Seq<char>| #![auto] self.totals().contains_key(n) implies
                        self.totals()[n] == before.totals().insert(filename@, new_total as int)[n] by {
                        let k = choose|k: int| 0 <= k < self.files.len() && #[trigger] self.files[k].name@ == n;
                        self.lemma_total_at(k);
                        if n != filename@ {
                            before.lemma_total_at(k);
                        }
                    }
                    assert(self.totals() =~= before.totals().insert(filename@, new_total as int));
                }
                new_total
            },
            None => {
                proof {
                    assert(!self.totals().contains_key(filename@));
                }
                let ghost before = *self;
                self.files.push(FileProgress { name: filename.to_owned(), total: len });
                proof {
                    let last = self.files.len() - 1;
                    assert forall|a: int, b: int|
                        0 <= a < b < self.files.len() implies #[trigger] self.files[a].name@
                        != #[trigger] self.files[b].name@ by {
                        if b < last {
                            assert(before.files[a].name@ != before.files[b].name@);
                        }
                    }
                    assert forall|n: Seq<char>| #![auto]
                        self.totals().contains_key(n) == before.totals().insert(filename@, len as int).contains_key(n) by {
                        if n != filename@ && before.totals().contains_key(n) {
                            let k = choose|k: int| 0 <= k < before.files.len() && #[trigger] before.files[k].name@ == n;
                            assert(self.files[k].name@ == n);
                        }
                        if n == filename@ {
                            assert(self.files[last].name@ == n);
                        }
                        if n != filename@ && self.totals().contains_key(n) {
                            let k = choose|k: int| 0 <= k < self.files.len() && #[trigger] self.files[k].name@ == n;
                            assert(before.files[k].name@ == n);
                        }
                    }
                    assert forall|n: Seq<char>| #![auto] self.totals().contains_key(n) implies
                        self.totals()[n] == before.totals().insert(filename@, len as int)[n] by {
                        let k = choose|k: int| 0 <= k < self.files.len() && #[trigger] self.files[k].name@ == n;
                        self.lemma_total_at(k);
                        if n != filename@ {
                            before.lemma_total_at(k);
                        }
                    }
                    assert(self.totals() =~= before.totals().insert(filename@, len as int));
                }
                len
            },
        }
    }
}

} // verus!
