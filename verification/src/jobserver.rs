//! The accounting of a GNU-make-compatible jobserver. Each process holds
//! some tokens (`mytokens`), shares the rest through a pipe, and may borrow
//! "cheat" tokens when it would otherwise wait on itself; each running job
//! holds one token.
use vstd::prelude::*;
use crate::helpers::{atoi_chars, atoi_spec, law_atoi_reads_back};
use crate::text::{
    append_slice, find, find_exec, occurs_at, free_of, lemma_find_first, lemma_int_str_plain, from_chars, i64_chars, int_str, lemma_find_from_props,
    slice_prefix, slice_range, to_chars,
};

verus! {

/// A job started by the jobserver.
#[derive(Debug)]
pub struct Job {
    pub name: String,
    pub pid: i32,
    pub rv: i32,
}

/// The token counts and running jobs of this process.
pub struct JobServer {
    pub mytokens: i32,
    pub cheats: i32,
    pub toplevel: i32,
    /// The running jobs, by the file descriptor that reports their end.
    pub jobs: Vec<(i32, Job)>,
}

/// What a finished job's returned token leaves, from `m` tokens held and
/// `c` borrowed: the token first pays back a borrowed one; then, if any
/// token is held, all but one are released. Gives the tokens held, the
/// tokens borrowed and the number released to the token pipe.
pub open spec fn token_back(m: int, c: int) -> (int, int, int) {
    if m == 0 && c >= 1 {
        (0, c - 1, 0)
    } else {
        (1, c - min_int(m, c), m - min_int(m, c))
    }
}

/// The tokens a new server for `top` jobs writes to its token pipe, from
/// `m` tokens held and `c` borrowed: it creates `top - 1`, pays back what it
/// borrowed, keeps one and shares the rest.
pub open spec fn server_share(m: int, c: int, top: int) -> int {
    top - 1 + m - 1 - min_int(top - 1 + m - 1, c)
}

pub open spec fn min_int(a: int, b: int) -> int {
    if a <= b {
        a
    } else {
        b
    }
}

impl JobServer {
    pub fn new() -> (r: JobServer)
        ensures
            r.mytokens == 1,
            r.cheats == 0,
            r.toplevel == 0,
            r.jobs@.len() == 0,
    {
        JobServer { mytokens: 1, cheats: 0, toplevel: 0, jobs: Vec::new() }
    }

    /// Gains `n` tokens: each first pays back a cheat, if any is owed.
    pub fn create_tokens(&mut self, n: i32)
        requires
            n >= 0,
            old(self).cheats >= 0,
            old(self).mytokens + n - min_int(n as int, old(self).cheats as int) <= i32::MAX,
        ensures
            final(self).cheats == old(self).cheats - min_int(n as int, old(self).cheats as int),
            final(self).mytokens == old(self).mytokens + n - min_int(
                n as int,
                old(self).cheats as int,
            ),
            final(self).mytokens - final(self).cheats == old(self).mytokens - old(self).cheats
                + n,
            final(self).toplevel == old(self).toplevel,
            final(self).jobs@ == old(self).jobs@,
    {
        let k = if n <= self.cheats {
            n
        } else {
            self.cheats
        };
        self.cheats = self.cheats - k;
        self.mytokens = self.mytokens + (n - k);
    }

    /// Gives up `n` tokens for good.
    pub fn destroy_tokens(&mut self, n: i32)
        requires
            old(self).mytokens >= n,
            old(self).mytokens - n <= i32::MAX,
        ensures
            final(self).mytokens == old(self).mytokens - n,
            final(self).cheats == old(self).cheats,
            final(self).toplevel == old(self).toplevel,
            final(self).jobs@ == old(self).jobs@,
    {
        self.mytokens = self.mytokens - n;
    }

    /// Gives up `n` tokens: each first pays back a cheat, if any is owed;
    /// returns how many are left to share through the token pipe.
    pub fn release(&mut self, n: i32) -> (share: i32)
        requires
            n >= 0,
            old(self).mytokens >= n,
            old(self).cheats >= 0,
        ensures
            share == n - min_int(n as int, old(self).cheats as int),
            final(self).mytokens == old(self).mytokens - n,
            final(self).cheats == old(self).cheats - min_int(n as int, old(self).cheats as int),
            final(self).mytokens - final(self).cheats + share == old(self).mytokens
                - old(self).cheats,
            final(self).toplevel == old(self).toplevel,
            final(self).jobs@ == old(self).jobs@,
    {
        let k = if n <= self.cheats {
            n
        } else {
            self.cheats
        };
        self.mytokens = self.mytokens - n;
        self.cheats = self.cheats - k;
        n - k
    }

    /// Keeps one token and releases the others.
    pub fn release_except_mine(&mut self) -> (share: i32)
        requires
            old(self).mytokens > 0,
            old(self).cheats >= 0,
        ensures
            final(self).mytokens == 1,
            final(self).cheats == old(self).cheats - min_int(
                old(self).mytokens - 1,
                old(self).cheats as int,
            ),
            share == old(self).mytokens - 1 - min_int(
                old(self).mytokens - 1,
                old(self).cheats as int,
            ),
            final(self).mytokens - final(self).cheats + share == old(self).mytokens
                - old(self).cheats,
            final(self).cheats >= 0,
            share >= 0,
            final(self).toplevel == old(self).toplevel,
            final(self).jobs@ == old(self).jobs@,
    {
        let n = self.mytokens - 1;
        self.release(n)
    }

    /// Releases this process's own token.
    pub fn release_mine(&mut self) -> (share: i32)
        requires
            old(self).mytokens >= 1,
            old(self).cheats >= 0,
        ensures
            final(self).mytokens == old(self).mytokens - 1,
            final(self).cheats == old(self).cheats - min_int(1, old(self).cheats as int),
            share == 1 - min_int(1, old(self).cheats as int),
            final(self).mytokens - final(self).cheats + share == old(self).mytokens
                - old(self).cheats,
            final(self).cheats >= 0,
            share >= 0,
            final(self).toplevel == old(self).toplevel,
            final(self).jobs@ == old(self).jobs@,
    {
        self.release(1)
    }

    pub fn has_token(&self) -> (r: bool)
        ensures
            r == (self.mytokens >= 1),
    {
        self.mytokens >= 1
    }

    /// Some job is still running.
    pub fn running(&self) -> (r: bool)
        ensures
            r == (self.jobs@.len() > 0),
    {
        self.jobs.len() > 0
    }

    /// Takes `n` borrowed tokens (which count as cheats until paid back).
    pub fn cheat(&mut self, n: i32)
        requires
            n > 0,
            old(self).mytokens + n <= i32::MAX,
            old(self).cheats + n <= i32::MAX,
        ensures
            final(self).mytokens == old(self).mytokens + n,
            final(self).cheats == old(self).cheats + n,
            final(self).toplevel == old(self).toplevel,
            final(self).jobs@ == old(self).jobs@,
    {
        self.mytokens = self.mytokens + n;
        self.cheats = self.cheats + n;
    }

    /// Starts accounting for a job that reports its end on `fd`: the job
    /// takes this process's only token. A job already filed under `fd` is
    /// replaced.
    pub fn start(&mut self, fd: i32, job: Job)
        requires
            old(self).mytokens == 1,
        ensures
            final(self).mytokens == 0,
            final(self).cheats == old(self).cheats,
            final(self).toplevel == old(self).toplevel,
            final(self).jobs@ == (match fd_index(old(self).jobs@, fd) {
                Some(i) => old(self).jobs@.update(i, (fd, job)),
                None => old(self).jobs@.push((fd, job)),
            }),
            fds_unique(old(self).jobs@) ==> fds_unique(final(self).jobs@),
    {
        self.destroy_tokens(1);
        proof {
            lemma_fd_index(self.jobs@, fd);
        }
        match find_fd(&self.jobs, fd) {
            Some(i) => {
                self.jobs.set(i, (fd, job));
            },
            None => {
                self.jobs.push((fd, job));
            },
        }
    }

    /// Accounts for the end of the job filed under `fd`: its token comes back
    /// to this process unless the job returned a borrowed token instead
    /// (`cheat_returned`), and every token beyond one is shared again.
    /// Returns the job, if one was filed under `fd`, and the number of
    /// tokens to write to the token pipe.
    pub fn finish_job(&mut self, fd: i32, cheat_returned: bool) -> (r: (Option<Job>, i32))
        requires
            old(self).mytokens >= 0,
            old(self).mytokens < i32::MAX,
            old(self).cheats >= 0,
        ensures
            final(self).toplevel == old(self).toplevel,
            final(self).cheats >= 0,
            fds_unique(old(self).jobs@) ==> fds_unique(final(self).jobs@),
            match fd_index(old(self).jobs@, fd) {
                None => {
                    &&& r.0 is None
                    &&& r.1 == 0
                    &&& final(self).jobs@ == old(self).jobs@
                    &&& final(self).mytokens == old(self).mytokens
                    &&& final(self).cheats == old(self).cheats
                },
                Some(i) => {
                    &&& r.0 == Some(old(self).jobs@[i].1)
                    &&& final(self).jobs@ == old(self).jobs@.remove(i)
                    &&& r.1 >= 0
                    &&& if cheat_returned {
                        &&& final(self).mytokens == old(self).mytokens
                        &&& final(self).cheats == old(self).cheats
                        &&& r.1 == 0
                    } else {
                        let (m, c, share) = token_back(
                            old(self).mytokens as int,
                            old(self).cheats as int,
                        );
                        &&& final(self).mytokens == m
                        &&& final(self).cheats == c
                        &&& r.1 == share
                        &&& final(self).mytokens - final(self).cheats + r.1 == old(
                            self,
                        ).mytokens - old(self).cheats + 1
                    }
                },
            },
    {
        match find_fd(&self.jobs, fd) {
            None => (None, 0),
            Some(i) => {
                let ghost before = self.jobs@;
                let (_, job) = self.jobs.remove(i);
                proof {
                    if fds_unique(before) {
                        assert forall|a: int, b: int|
                            0 <= a < b < self.jobs@.len() implies #[trigger] self.jobs@[a].0
                            != #[trigger] self.jobs@[b].0 by {
                            let a0 = if a < i { a } else { a + 1 };
                            let b0 = if b < i { b } else { b + 1 };
                            assert(self.jobs@[a] == before[a0]);
                            assert(self.jobs@[b] == before[b0]);
                        }
                    }
                }
                let mut share: i32 = 0;
                if !cheat_returned {
                    self.create_tokens(1);
                    if self.has_token() {
                        share = self.release_except_mine();
                    }
                }
                (Some(job), share)
            },
        }
    }

    /// Forgets every running job and takes their tokens back, keeping one
    /// and sharing the others; a borrowed token still held is then given
    /// up for good. Returns the number of tokens to write to the token pipe
    /// and the number to write to the cheat pipe.
    pub fn force_return_tokens(&mut self) -> (r: (i32, i32))
        requires
            old(self).mytokens >= 0,
            old(self).cheats >= 0,
            old(self).mytokens + old(self).jobs@.len() <= i32::MAX,
            forced_counts(
                old(self).mytokens as int,
                old(self).cheats as int,
                old(self).jobs@.len() as int,
            ).1 <= forced_counts(
                old(self).mytokens as int,
                old(self).cheats as int,
                old(self).jobs@.len() as int,
            ).0,
            forced_counts(
                old(self).mytokens as int,
                old(self).cheats as int,
                old(self).jobs@.len() as int,
            ).1 <= 1,
        ensures
            ({
                let (m, c) = forced_counts(
                    old(self).mytokens as int,
                    old(self).cheats as int,
                    old(self).jobs@.len() as int,
                );
                &&& final(self).jobs@.len() == 0
                &&& final(self).cheats == c
                &&& final(self).mytokens == m - c
                &&& r.1 == c
                &&& m - c + r.0 == old(self).mytokens - old(self).cheats + old(self).jobs@.len()
                &&& final(self).toplevel == old(self).toplevel
            }),
    {
        let n = self.jobs.len() as i32;
        self.jobs.clear();
        self.create_tokens(n);
        let mut share: i32 = 0;
        if self.has_token() {
            share = self.release_except_mine();
        }
        let cheats = self.cheats;
        if cheats > 0 {
            self.destroy_tokens(cheats);
        }
        (share, cheats)
    }

    /// Whether `force_return_tokens` may run: afterwards at most one
    /// borrowed token may be left, and no more than the tokens held.
    pub fn force_return_ok(&self) -> (r: bool)
        requires
            self.mytokens >= 0,
            self.cheats >= 0,
            self.mytokens + self.jobs@.len() <= i32::MAX,
        ensures
            r == ({
                let (m, c) = forced_counts(
                    self.mytokens as int,
                    self.cheats as int,
                    self.jobs@.len() as int,
                );
                c <= m && c <= 1
            }),
    {
        let n = self.jobs.len() as i32;
        let k = if n <= self.cheats {
            n
        } else {
            self.cheats
        };
        let m1 = self.mytokens + n - k;
        let c1 = self.cheats - k;
        let (m, c) = if m1 >= 1 {
            let k2 = if m1 - 1 <= c1 {
                m1 - 1
            } else {
                c1
            };
            (1, c1 - k2)
        } else {
            (m1, c1)
        };
        c <= m && c <= 1
    }

    /// Gives back every token beyond the one this process holds, then, if
    /// jobs are still running, that one too, before waiting for them.
    /// Returns the number of tokens to write to the token pipe and whether
    /// any job is running.
    pub fn prepare_wait(&mut self) -> (r: (i32, bool))
        requires
            old(self).mytokens >= 0,
            old(self).cheats >= 0,
        ensures
            r.1 == (old(self).jobs@.len() > 0),
            final(self).jobs@ == old(self).jobs@,
            final(self).toplevel == old(self).toplevel,
            final(self).cheats >= 0,
            r.0 >= 0,
            final(self).mytokens - final(self).cheats + r.0 == old(self).mytokens - old(
                self,
            ).cheats,
            final(self).mytokens == if old(self).mytokens == 0 || r.1 {
                0int
            } else {
                1int
            },
    {
        let mut share: i32 = 0;
        if self.mytokens >= 2 {
            share = self.release_except_mine();
        }
        let running = self.running();
        if running && self.mytokens >= 1 {
            share = share + self.release_mine();
        }
        (share, running)
    }

    /// Accounts for a token read from the token pipe.
    pub fn take_token(&mut self)
        requires
            old(self).mytokens < i32::MAX,
        ensures
            final(self).mytokens == old(self).mytokens + 1,
            final(self).cheats == old(self).cheats,
            final(self).toplevel == old(self).toplevel,
            final(self).jobs@ == old(self).jobs@,
    {
        self.mytokens = self.mytokens + 1;
    }

    /// Sets this process up as the top of a new jobserver for `maxjobs`
    /// jobs (at least one): it creates the tokens and shares all but its
    /// own. Returns the number of tokens to write to the new token pipe.
    pub fn start_new_server(&mut self, maxjobs: i32) -> (share: i32)
        requires
            maxjobs >= 0,
            old(self).cheats >= 0,
            old(self).mytokens >= 1,
            old(self).mytokens + maxjobs <= i32::MAX,
        ensures
            final(self).toplevel == (if maxjobs > 0 {
                maxjobs as int
            } else {
                1
            }),
            final(self).mytokens == 1,
            final(self).cheats == old(self).cheats - min_int(
                final(self).toplevel - 1 + old(self).mytokens - 1,
                old(self).cheats as int,
            ),
            share == server_share(
                old(self).mytokens as int,
                old(self).cheats as int,
                final(self).toplevel as int,
            ),
            final(self).cheats >= 0,
            final(self).mytokens - final(self).cheats + share == old(self).mytokens - old(
                self,
            ).cheats + final(self).toplevel - 1,
            final(self).jobs@ == old(self).jobs@,
    {
        let realmax = if maxjobs > 0 {
            maxjobs
        } else {
            1
        };
        self.toplevel = realmax;
        self.create_tokens(realmax - 1);
        self.release_except_mine()
    }
}

/// The descriptors of the running jobs, in order.
pub open spec fn job_fds(jobs: Seq<(i32, Job)>) -> Seq<i32> {
    Seq::new(jobs.len(), |i: int| jobs[i].0)
}

/// The job descriptors, among `fds`, that are in `ready` and are not the
/// token pipe's (a job that reported its end).
pub open spec fn finished_fds(fds: Seq<i32>, ready: Seq<i32>, token_r: Option<i32>) -> Seq<i32>
    decreases fds.len(),
{
    if fds.len() == 0 {
        Seq::empty()
    } else {
        let rest = finished_fds(fds.drop_last(), ready, token_r);
        let fd = fds.last();
        if ready.contains(fd) && token_r != Some(fd) {
            rest.push(fd)
        } else {
            rest
        }
    }
}

impl JobServer {
    /// What a wait watches: the descriptors of the running jobs, then the
    /// token pipe when a token is wanted.
    pub fn wait_fds(&self, want_token: bool, token_r: Option<i32>) -> (r: Vec<i32>)
        ensures
            r@ == job_fds(self.jobs@) + (if want_token && token_r is Some {
                seq![token_r->0]
            } else {
                Seq::empty()
            }),
    {
        let mut r: Vec<i32> = Vec::new();
        let mut i: usize = 0;
        while i < self.jobs.len()
            invariant
                i <= self.jobs@.len(),
                r@ == job_fds(self.jobs@).take(i as int),
            decreases self.jobs@.len() - i,
        {
            r.push(self.jobs[i].0);
            assert(r@ =~= job_fds(self.jobs@).take(i + 1));
            i = i + 1;
        }
        assert(job_fds(self.jobs@).take(i as int) =~= job_fds(self.jobs@));
        if want_token {
            match token_r {
                Some(t) => r.push(t),
                None => {},
            }
        }
        assert(r@ =~= job_fds(self.jobs@) + (if want_token && token_r is Some {
            seq![token_r->0]
        } else {
            Seq::empty()
        }));
        r
    }

    /// The jobs that a wait found finished: their descriptors, in order.
    pub fn finished(&self, ready: &Vec<i32>, token_r: Option<i32>) -> (r: Vec<i32>)
        ensures
            r@ == finished_fds(job_fds(self.jobs@), ready@, token_r),
    {
        let mut r: Vec<i32> = Vec::new();
        let mut i: usize = 0;
        let ghost fds = job_fds(self.jobs@);
        while i < self.jobs.len()
            invariant
                i <= self.jobs@.len(),
                fds == job_fds(self.jobs@),
                r@ == finished_fds(fds.take(i as int), ready@, token_r),
            decreases self.jobs@.len() - i,
        {
            let fd = self.jobs[i].0;
            assert(fds.take(i + 1).drop_last() =~= fds.take(i as int));
            assert(fds.take(i + 1).last() == fd);
            let mut found = false;
            let mut k: usize = 0;
            while k < ready.len()
                invariant
                    k <= ready@.len(),
                    found == ready@.take(k as int).contains(fd),
                decreases ready@.len() - k,
            {
                if ready[k] == fd {
                    found = true;
                }
                proof {
                    assert(ready@.take(k + 1) =~= ready@.take(k as int).push(ready@[k as int]));
                    if ready@.take(k as int).contains(fd) {
                        let j = choose|j: int| 0 <= j < k && ready@.take(k as int)[j] == fd;
                        assert(ready@.take(k + 1)[j] == fd);
                    }
                    if ready@[k as int] == fd {
                        assert(ready@.take(k + 1)[k as int] == fd);
                    }
                }
                k = k + 1;
            }
            assert(ready@.take(k as int) =~= ready@);
            let is_token = match token_r {
                Some(t) => t == fd,
                None => false,
            };
            if found && !is_token {
                r.push(fd);
            }
            i = i + 1;
        }
        assert(fds.take(i as int) =~= fds);
        r
    }
}

/// The counts of tokens and cheats after the running jobs' `n` tokens are
/// taken back and all but one are shared.
pub open spec fn forced_counts(mytokens: int, cheats: int, n: int) -> (int, int) {
    let k = min_int(n, cheats);
    let m1 = mytokens + n - k;
    let c1 = cheats - k;
    if m1 >= 1 {
        (1, c1 - min_int(m1 - 1, c1))
    } else {
        (m1, c1)
    }
}

/// No descriptor files two running jobs.
pub open spec fn fds_unique(jobs: Seq<(i32, Job)>) -> bool {
    forall|i: int, j: int| 0 <= i < j < jobs.len() ==> #[trigger] jobs[i].0 != #[trigger] jobs[j].0
}

/// The first position of a job filed under `fd`.
pub open spec fn fd_index(jobs: Seq<(i32, Job)>, fd: i32) -> Option<int>
    decreases jobs.len(),
{
    if jobs.len() == 0 {
        None
    } else {
        match fd_index(jobs.drop_last(), fd) {
            Some(i) => Some(i),
            None => if jobs.last().0 == fd {
                Some(jobs.len() - 1)
            } else {
                None
            },
        }
    }
}

pub proof fn lemma_fd_index(jobs: Seq<(i32, Job)>, fd: i32)
    ensures
        match fd_index(jobs, fd) {
            Some(i) => 0 <= i < jobs.len() && jobs[i].0 == fd && forall|j: int|
                0 <= j < i ==> jobs[j].0 != fd,
            None => forall|j: int| 0 <= j < jobs.len() ==> jobs[j].0 != fd,
        },
    decreases jobs.len(),
{
    if jobs.len() > 0 {
        lemma_fd_index(jobs.drop_last(), fd);
        assert forall|j: int| 0 <= j < jobs.len() - 1 implies jobs.drop_last()[j] == jobs[j] by {}
    }
}

fn find_fd(jobs: &Vec<(i32, Job)>, fd: i32) -> (r: Option<usize>)
    ensures
        match r {
            Some(i) => fd_index(jobs@, fd) == Some(i as int) && i < jobs@.len() && jobs@[i as int].0
                == fd,
            None => fd_index(jobs@, fd) is None,
        },
{
    let mut i: usize = 0;
    while i < jobs.len()
        invariant
            i <= jobs@.len(),
            forall|j: int| 0 <= j < i ==> jobs@[j].0 != fd,
        decreases jobs@.len() - i,
    {
        if jobs[i].0 == fd {
            proof {
                lemma_fd_index(jobs@, fd);
                if let Some(k) = fd_index(jobs@, fd) {
                    assert(k == i);
                }
            }
            return Some(i);
        }
        i = i + 1;
    }
    proof {
        lemma_fd_index(jobs@, fd);
    }
    None
}


// ---------------------------------------------------------------------------
// How a job ended
// ---------------------------------------------------------------------------

/// How a waited-for child process ended.
#[derive(PartialEq, Eq, Structural, Debug, Clone, Copy)]
pub enum ChildEnd {
    Exited(i32),
    Signaled(i32),
    Other,
}

/// The exit code recorded for a job: its own exit code, minus the signal
/// that killed it, or 201 when neither is known.
pub fn end_rv(e: ChildEnd) -> (r: i32)
    requires
        e matches ChildEnd::Signaled(sig) ==> sig > i32::MIN,
    ensures
        r == match e {
            ChildEnd::Exited(code) => code as int,
            ChildEnd::Signaled(sig) => -sig,
            ChildEnd::Other => 201,
        },
{
    match e {
        ChildEnd::Exited(code) => code,
        ChildEnd::Signaled(sig) => -sig,
        ChildEnd::Other => 201,
    }
}

// ---------------------------------------------------------------------------
// Finding the jobserver of a parent process
// ---------------------------------------------------------------------------

/// Two positive file descriptors written `a,b`: the text before the first
/// comma and the text after it, each read as by `atoi` and cut to 32 bits.
pub open spec fn fd_pair(arg: Seq<char>) -> Option<(i32, i32)> {
    match find(arg, seq![',']) {
        None => None,
        Some(i) => {
            let a = atoi_spec(arg.take(i)) as i32;
            let b = atoi_spec(arg.skip(i + 1)) as i32;
            if a > 0 && b > 0 {
                Some((a, b))
            } else {
                None
            }
        },
    }
}

pub fn fd_pair_chars(arg: &[char]) -> (r: Option<(i32, i32)>)
    ensures
        r == fd_pair(arg@),
{
    let comma: Vec<char> = vec![','];
    assert(comma@ =~= seq![',']);
    match find_exec(arg, comma.as_slice()) {
        None => None,
        Some(i) => {
            proof {
                lemma_find_from_props(arg@, comma@, 0);
            }
            let first = slice_prefix(arg, i);
            let n = arg.len();
            let second = slice_range(arg, i + 1, n);
            assert(second@ =~= arg@.skip(i + 1));
            let a64 = atoi_chars(first.as_slice());
            let b64 = atoi_chars(second.as_slice());
            let a = #[verifier::truncate] (a64 as i32);
            let b = #[verifier::truncate] (b64 as i32);
            if a > 0 && b > 0 {
                Some((a, b))
            } else {
                None
            }
        },
    }
}

/// The text of `flags` from `start` up to the next space, read as a pair of
/// file descriptors.
pub open spec fn fds_after(flags: Seq<char>, start: int) -> Option<(i32, i32)> {
    let rest = flags.skip(start);
    match find(rest, seq![' ']) {
        Some(sp) => fd_pair(rest.take(sp)),
        None => None,
    }
}

/// The jobserver that `MAKEFLAGS` announces: the value of the first of
/// `--jobserver-auth=` and `--jobserver-fds=` that occurs in it, when that
/// value is a pair of positive file descriptors.
pub open spec fn jobserver_fds_spec(makeflags: Seq<char>) -> Option<(i32, i32)> {
    let flags = seq![' '] + makeflags + seq![' '];
    match find(flags, "--jobserver-auth="@) {
        Some(p) => fds_after(flags, p + "--jobserver-auth="@.len()),
        None => match find(flags, "--jobserver-fds="@) {
            Some(p) => fds_after(flags, p + "--jobserver-fds="@.len()),
            None => None,
        },
    }
}

fn fds_after_chars(flags: &[char], start: usize) -> (r: Option<(i32, i32)>)
    requires
        start <= flags@.len(),
    ensures
        r == fds_after(flags@, start as int),
{
    let n = flags.len();
    let rest = slice_range(flags, start, n);
    assert(rest@ =~= flags@.skip(start as int));
    let space: Vec<char> = vec![' '];
    assert(space@ =~= seq![' ']);
    match find_exec(rest.as_slice(), space.as_slice()) {
        Some(sp) => {
            proof {
                lemma_find_from_props(rest@, space@, 0);
            }
            let arg = slice_prefix(rest.as_slice(), sp);
            fd_pair_chars(arg.as_slice())
        },
        None => None,
    }
}

pub fn jobserver_fds(makeflags: &str) -> (r: Option<(i32, i32)>)
    ensures
        r == jobserver_fds_spec(makeflags@),
{
    let mut flags: Vec<char> = vec![' '];
    let m = to_chars(makeflags);
    append_slice(&mut flags, m.as_slice());
    flags.push(' ');
    assert(flags@ =~= seq![' '] + makeflags@ + seq![' ']);
    let flen = flags.len();
    let auth = to_chars("--jobserver-auth=");
    match find_exec(flags.as_slice(), auth.as_slice()) {
        Some(p) => {
            proof {
                lemma_find_from_props(flags@, auth@, 0);
                assert(occurs_at(flags@, auth@, p as int));
            }
            fds_after_chars(flags.as_slice(), p + auth.len())
        },
        None => {
            let fds = to_chars("--jobserver-fds=");
            match find_exec(flags.as_slice(), fds.as_slice()) {
                Some(p) => {
                    proof {
                        lemma_find_from_props(flags@, fds@, 0);
                        assert(occurs_at(flags@, fds@, p as int));
                    }
                    fds_after_chars(flags.as_slice(), p + fds.len())
                },
                None => None,
            }
        },
    }
}

/// The cheat pipe that `REDO_CHEATFDS` names, if it names one.
pub fn cheat_fds(value: &str) -> (r: Option<(i32, i32)>)
    ensures
        r == (if value@.len() == 0 {
            None
        } else {
            fd_pair(value@)
        }),
{
    let v = to_chars(value);
    if v.len() == 0 {
        None
    } else {
        fd_pair_chars(v.as_slice())
    }
}

/// What `setup` does with the jobserver a parent announced.
#[derive(PartialEq, Eq, Structural, Debug, Clone, Copy)]
pub enum SetupPlan {
    /// The announced descriptors are not open: give up with exit code 200.
    Broken,
    /// Join the parent's jobserver.
    Inherit(i32, i32),
    /// Start a jobserver of our own, warning first if `-j` was forced.
    NewServer { warn: bool },
}

/// Decides between the parent's jobserver and a new one: the parent's is
/// joined unless `-j` was given (`maxjobs` > 0); `-j1` starts a new one
/// quietly, a larger `-j` with a warning.
pub fn plan_setup(found: Option<(i32, i32)>, fds_exist: bool, maxjobs: i32) -> (r: SetupPlan)
    ensures
        r == match found {
            None => SetupPlan::NewServer { warn: false },
            Some((a, b)) => if !fds_exist {
                SetupPlan::Broken
            } else if maxjobs == 1 {
                SetupPlan::NewServer { warn: false }
            } else if maxjobs > 1 {
                SetupPlan::NewServer { warn: true }
            } else {
                SetupPlan::Inherit(a, b)
            },
        },
{
    match found {
        None => SetupPlan::NewServer { warn: false },
        Some((a, b)) => {
            if !fds_exist {
                SetupPlan::Broken
            } else if maxjobs == 1 {
                SetupPlan::NewServer { warn: false }
            } else if maxjobs > 1 {
                SetupPlan::NewServer { warn: true }
            } else {
                SetupPlan::Inherit(a, b)
            }
        },
    }
}

pub const BROKEN_AUTH_MESSAGE: &'static str = "broken --jobserver-auth from parent process:";

pub const BROKEN_AUTH_HINT: &'static str = "  using GNU make? prefix your Makefile rule with \"+\"";

/// The warning given when `-j` starts a new jobserver under a parent's.
pub fn forced_jobs_warning(maxjobs: i32) -> (r: String)
    ensures
        r@ == "warning: -j"@ + int_str(maxjobs as int) + " forced in sub-redo; starting new jobserver."@,
{
    let mut v = to_chars("warning: -j");
    let n = i64_chars(maxjobs as i64);
    append_slice(&mut v, n.as_slice());
    let tail = to_chars(" forced in sub-redo; starting new jobserver.");
    append_slice(&mut v, tail.as_slice());
    from_chars(v.as_slice())
}

/// `a,b`.
pub open spec fn pair_text(a: i32, b: i32) -> Seq<char> {
    int_str(a as int) + ","@ + int_str(b as int)
}

fn pair_chars(a: i32, b: i32) -> (r: Vec<char>)
    ensures
        r@ == pair_text(a, b),
{
    let mut v = i64_chars(a as i64);
    let comma = to_chars(",");
    append_slice(&mut v, comma.as_slice());
    let bv = i64_chars(b as i64);
    append_slice(&mut v, bv.as_slice());
    v
}

/// The value of `REDO_CHEATFDS` for a cheat pipe.
pub fn cheatfds_value(a: i32, b: i32) -> (r: String)
    ensures
        r@ == pair_text(a, b),
{
    let v = pair_chars(a, b);
    from_chars(v.as_slice())
}

/// The value of `MAKEFLAGS` that announces the jobserver on `a,b`.
pub open spec fn makeflags_spec(a: i32, b: i32) -> Seq<char> {
    " -j --jobserver-auth="@ + pair_text(a, b) + " --jobserver-fds="@ + pair_text(a, b)
}

/// The value of `MAKEFLAGS` that announces a new jobserver to children.
pub fn makeflags_value(a: i32, b: i32) -> (r: String)
    ensures
        r@ == makeflags_spec(a, b),
{
    let mut v = to_chars(" -j --jobserver-auth=");
    let p = pair_chars(a, b);
    append_slice(&mut v, p.as_slice());
    let mid = to_chars(" --jobserver-fds=");
    append_slice(&mut v, mid.as_slice());
    append_slice(&mut v, p.as_slice());
    from_chars(v.as_slice())
}

/// On exit, the top jobserver counts the tokens left in the pipe less the
/// cheats; the complaint when that is not the number it started with.
pub fn exit_token_message(toplevel: i32, ntokens: u32, ncheats: u32) -> (r: Option<String>)
    ensures
        r matches Some(m) ==> m@ == "on exit: expected "@ + int_str(toplevel as int)
            + " tokens; found "@ + int_str(ntokens as int) + "-"@ + int_str(ncheats as int),
        r is Some <==> ntokens - ncheats != toplevel,
{
    let found = ntokens as i64 - ncheats as i64;
    if found == toplevel as i64 {
        None
    } else {
        let mut v = to_chars("on exit: expected ");
        let t = i64_chars(toplevel as i64);
        append_slice(&mut v, t.as_slice());
        let mid = to_chars(" tokens; found ");
        append_slice(&mut v, mid.as_slice());
        let a = i64_chars(ntokens as i64);
        append_slice(&mut v, a.as_slice());
        let dash = to_chars("-");
        append_slice(&mut v, dash.as_slice());
        let b = i64_chars(ncheats as i64);
        append_slice(&mut v, b.as_slice());
        Some(from_chars(v.as_slice()))
    }
}

// ---------------------------------------------------------------------------
// Waiting for a token
// ---------------------------------------------------------------------------

/// What happened since the last step of waiting for a token.
#[derive(PartialEq, Eq, Structural, Debug, Clone, Copy)]
pub enum TokenEvent {
    /// The wait begins.
    Start,
    /// A wait without time limit returned; a token was read from the pipe
    /// or not.
    Blocking { got_token: bool },
    /// A wait with a time limit returned.
    Timed { got_token: bool },
    /// The cheat function was asked and gave this many tokens.
    Cheated(i32),
}

/// What to do next while waiting for a token.
#[derive(PartialEq, Eq, Structural, Debug, Clone, Copy)]
pub enum TokenAction {
    /// This process holds a token.
    Done,
    /// Wait for a job to end or a token to arrive, without time limit.
    WaitBlocking,
    /// Wait as long, but at most this many microseconds.
    WaitTimed(i64),
    /// Ask the cheat function for tokens.
    AskCheat,
}

/// The backoff of the timed waits, in microseconds: it starts at 10 ms and
/// doubles after each timed wait; a wait lasts at most one second.
pub struct TokenWaiter {
    pub backoff_us: i64,
}

pub const MAX_TOKEN_WAIT_US: i64 = 1000000;

impl TokenWaiter {
    pub fn new() -> (r: TokenWaiter)
        ensures
            r.backoff_us == 10000,
    {
        TokenWaiter { backoff_us: 10000 }
    }
}

/// The next backoff after a timed wait.
pub open spec fn next_backoff(b: int) -> int {
    if b >= MAX_TOKEN_WAIT_US {
        b
    } else {
        2 * b
    }
}

/// Where the wait goes when it has no token and starts over.
pub open spec fn wait_from_top(has_token: bool, running: bool, backoff: int) -> TokenAction {
    if has_token {
        TokenAction::Done
    } else if running {
        TokenAction::WaitBlocking
    } else {
        TokenAction::WaitTimed(min_int(backoff, MAX_TOKEN_WAIT_US as int) as i64)
    }
}

/// One step of waiting until this process holds a token: while jobs run,
/// wait for them without limit; otherwise wait with a growing limit and
/// then ask the cheat function, which may lend tokens.
pub fn ensure_token_or_cheat(js: &mut JobServer, w: &mut TokenWaiter, ev: TokenEvent) -> (a:
    TokenAction)
    requires
        old(w).backoff_us > 0,
        old(js).mytokens >= 0,
        ev matches TokenEvent::Blocking { got_token } ==> (got_token ==> old(js).mytokens
            < i32::MAX),
        ev matches TokenEvent::Timed { got_token } ==> (got_token ==> old(js).mytokens
            < i32::MAX),
        ev matches TokenEvent::Cheated(n) ==> (n > 0 ==> old(js).mytokens + n <= i32::MAX
            && old(js).cheats + n <= i32::MAX),
    ensures
        final(js).toplevel == old(js).toplevel,
        final(js).jobs@ == old(js).jobs@,
        final(w).backoff_us > 0,
        a == TokenAction::Done ==> final(js).mytokens >= 1,
        match ev {
            TokenEvent::Start => {
                &&& *final(js) == *old(js)
                &&& final(w).backoff_us == old(w).backoff_us
                &&& a == wait_from_top(
                    old(js).mytokens >= 1,
                    old(js).jobs@.len() > 0,
                    old(w).backoff_us as int,
                )
            },
            TokenEvent::Blocking { got_token } => {
                &&& final(js).mytokens == old(js).mytokens + (if got_token {
                    1int
                } else {
                    0int
                })
                &&& final(js).cheats == old(js).cheats
                &&& final(w).backoff_us == old(w).backoff_us
                &&& a == if final(js).mytokens >= 1 {
                    TokenAction::Done
                } else {
                    TokenAction::WaitBlocking
                }
            },
            TokenEvent::Timed { got_token } => {
                &&& final(js).mytokens == old(js).mytokens + (if got_token {
                    1int
                } else {
                    0int
                })
                &&& final(js).cheats == old(js).cheats
                &&& final(w).backoff_us == next_backoff(old(w).backoff_us as int)
                &&& a == if final(js).mytokens >= 1 {
                    TokenAction::Done
                } else {
                    TokenAction::AskCheat
                }
            },
            TokenEvent::Cheated(n) => {
                &&& final(w).backoff_us == old(w).backoff_us
                &&& if n > 0 {
                    &&& final(js).mytokens == old(js).mytokens + n
                    &&& final(js).cheats == old(js).cheats + n
                    &&& a == TokenAction::Done
                } else {
                    &&& *final(js) == *old(js)
                    &&& a == wait_from_top(
                        old(js).mytokens >= 1,
                        old(js).jobs@.len() > 0,
                        old(w).backoff_us as int,
                    )
                }
            },
        },
{
    match ev {
        TokenEvent::Start => {
            from_top(js, w)
        },
        TokenEvent::Blocking { got_token } => {
            if got_token {
                js.take_token();
            }
            if js.has_token() {
                TokenAction::Done
            } else {
                TokenAction::WaitBlocking
            }
        },
        TokenEvent::Timed { got_token } => {
            if got_token {
                js.take_token();
            }
            if w.backoff_us < MAX_TOKEN_WAIT_US {
                w.backoff_us = w.backoff_us * 2;
            }
            if js.has_token() {
                TokenAction::Done
            } else {
                TokenAction::AskCheat
            }
        },
        TokenEvent::Cheated(n) => {
            if n > 0 {
                js.cheat(n);
                TokenAction::Done
            } else {
                from_top(js, w)
            }
        },
    }
}

fn from_top(js: &JobServer, w: &TokenWaiter) -> (a: TokenAction)
    ensures
        a == wait_from_top(js.mytokens >= 1, js.jobs@.len() > 0, w.backoff_us as int),
        a == TokenAction::Done <==> js.mytokens >= 1,
{
    if js.has_token() {
        TokenAction::Done
    } else if js.running() {
        TokenAction::WaitBlocking
    } else {
        let d = if w.backoff_us <= MAX_TOKEN_WAIT_US {
            w.backoff_us
        } else {
            MAX_TOKEN_WAIT_US
        };
        TokenAction::WaitTimed(d)
    }
}

// ---------------------------------------------------------------------------
// Laws
// ---------------------------------------------------------------------------

/// A pair of positive descriptors written `a,b` is read back as itself.
pub proof fn law_fd_pair_reads_back(a: i32, b: i32)
    requires
        a > 0,
        b > 0,
    ensures
        fd_pair(pair_text(a, b)) == Some((a, b)),
{
    reveal_strlit(",");
    let sa = int_str(a as int);
    let sb = int_str(b as int);
    let p = pair_text(a, b);
    assert(p =~= sa + seq![','] + sb);
    lemma_int_str_plain(a as int);
    lemma_int_str_plain(b as int);
    assert(p.subrange(sa.len() as int, sa.len() as int + 1) =~= seq![',']);
    assert forall|j: int| 0 <= j < sa.len() implies !occurs_at(p, seq![','], j) by {
        if occurs_at(p, seq![','], j) {
            assert(p.subrange(j, j + 1)[0] == p[j]);
            assert(p[j] == sa[j]);
        }
    }
    lemma_find_first(p, seq![','], sa.len() as int);
    assert(p.take(sa.len() as int) =~= sa);
    assert(p.skip(sa.len() as int + 1) =~= sb);
    law_atoi_reads_back(a as i64);
    law_atoi_reads_back(b as i64);
}

/// A child finds the jobserver its parent announced in `MAKEFLAGS`.
pub proof fn law_jobserver_announced(a: i32, b: i32)
    requires
        a > 0,
        b > 0,
    ensures
        jobserver_fds_spec(makeflags_spec(a, b)) == Some((a, b)),
{
    reveal_strlit(" -j --jobserver-auth=");
    reveal_strlit("--jobserver-auth=");
    reveal_strlit(" --jobserver-fds=");
    reveal_strlit(",");
    let p = pair_text(a, b);
    let key = "--jobserver-auth="@;
    let flags = seq![' '] + makeflags_spec(a, b) + seq![' '];
    assert(flags.subrange(5, 22) =~= key);
    assert forall|j: int| 0 <= j < 5 implies !occurs_at(flags, key, j) by {
        if occurs_at(flags, key, j) {
            assert(flags.subrange(j, j + 17)[0] == flags[j]);
            assert(flags.subrange(j, j + 17)[1] == flags[j + 1]);
        }
    }
    lemma_find_first(flags, key, 5);
    let rest = flags.skip(22);
    assert(rest =~= p + " --jobserver-fds="@ + p + seq![' ']);
    lemma_int_str_plain(a as int);
    lemma_int_str_plain(b as int);
    let sa = int_str(a as int);
    let sb = int_str(b as int);
    assert(p =~= sa + seq![','] + sb);
    assert(free_of(p, ' ')) by {
        assert forall|i: int| 0 <= i < p.len() implies p[i] != ' ' by {
            if i < sa.len() {
                assert(p[i] == sa[i]);
            } else if i > sa.len() {
                assert(p[i] == sb[i - sa.len() - 1]);
            }
        }
    }
    assert(rest.subrange(p.len() as int, p.len() as int + 1) =~= seq![' ']);
    assert forall|j: int| 0 <= j < p.len() implies !occurs_at(rest, seq![' '], j) by {
        if occurs_at(rest, seq![' '], j) {
            assert(rest.subrange(j, j + 1)[0] == rest[j]);
            assert(rest[j] == p[j]);
        }
    }
    lemma_find_first(rest, seq![' '], p.len() as int);
    assert(rest.take(p.len() as int) =~= p);
    law_fd_pair_reads_back(a, b);
}

/// A child finds the cheat pipe its parent named in `REDO_CHEATFDS`.
pub proof fn law_cheatfds_read_back(a: i32, b: i32)
    requires
        a > 0,
        b > 0,
    ensures
        pair_text(a, b).len() > 0,
        fd_pair(pair_text(a, b)) == Some((a, b)),
{
    lemma_int_str_plain(a as int);
    law_fd_pair_reads_back(a, b);
}

/// A freshly set up server (one token of its own, none borrowed) shares
/// all but one of its `top` tokens through the token pipe.
pub proof fn law_fresh_server_shares_all_but_one(top: int)
    requires
        top >= 1,
    ensures
        server_share(1, 0, top) == top - 1,
{
}

/// A finished job's token never leaves more than one token held, and what
/// it adds is either kept, paid back, or written to the token pipe.
pub proof fn law_token_back_balance(m: int, c: int)
    requires
        m >= 0,
        c >= 0,
    ensures
        token_back(m, c).0 <= 1,
        token_back(m, c).1 >= 0,
        token_back(m, c).2 >= 0,
        token_back(m, c).0 - token_back(m, c).1 + token_back(m, c).2 == m - c + 1,
{
}

} // verus!
