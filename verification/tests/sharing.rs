use std::collections::BTreeMap;

use coda_memory::naming::{content_hash, PREFIX};
use coda_memory::placement::HUGE;
use coda_memory::region::{Release, SharedRegion};
use coda_memory::shared_weights::{enabled, share, shmem_thp_policy, Host};
use coda_memory::sharing::{attach, errno, publish_then_attach, same_content, Sharing};
use coda_memory::system::{Action, Name, Outcome};

const PID: u32 = 4242;

const HOST: Host = Host { enabled: true, supported: true, pid: PID };

/// A file system, locks and address space in memory.
struct Kernel {
    names: BTreeMap<String, u64>,
    files: BTreeMap<u64, Vec<u8>>,
    open: BTreeMap<i32, u64>,
    shared: Vec<i32>,
    exclusive: Vec<i32>,
    held: Vec<(usize, usize)>,
    mapped: BTreeMap<usize, u64>,
    listing: Vec<String>,
    next_fd: i32,
    next_inode: u64,
    next_base: usize,
    pauses: u32,
    calls: Vec<Action>,
}

fn pages(len: usize) -> usize {
    (len + 4095) / 4096 * 4096
}

fn failure(text: &str) -> Outcome<'static> {
    Outcome::Failure { text: text.to_string(), again: false }
}

impl Kernel {
    fn new() -> Kernel {
        Kernel {
            names: BTreeMap::new(),
            files: BTreeMap::new(),
            open: BTreeMap::new(),
            shared: Vec::new(),
            exclusive: Vec::new(),
            held: Vec::new(),
            mapped: BTreeMap::new(),
            listing: Vec::new(),
            next_fd: 3,
            next_inode: 100,
            next_base: 0x7f00_0012_3000,
            pauses: 0,
            calls: Vec::new(),
        }
    }

    fn put(&mut self, path: &str, content: &[u8]) -> u64 {
        let inode = self.next_inode;
        self.next_inode += 1;
        self.names.insert(path.to_string(), inode);
        self.files.insert(inode, content.to_vec());
        inode
    }

    fn open_inode(&mut self, inode: u64) -> i32 {
        let fd = self.next_fd;
        self.next_fd += 1;
        self.open.insert(fd, inode);
        fd
    }

    /// Another process that uses the object.
    fn use_object(&mut self, path: &str) {
        let fd = self.open_inode(self.names[path]);
        self.shared.push(fd);
    }

    fn locked_by_others(&self, fd: i32, all: bool) -> bool {
        let inode = self.open[&fd];
        let holds = |f: &i32| *f != fd && self.open[f] == inode;
        self.exclusive.iter().any(holds) || (all && self.shared.iter().any(holds))
    }

    fn links(&self, inode: u64) -> u64 {
        self.names.values().filter(|i| **i == inode).count() as u64
    }

    fn status(&self, inode: u64) -> Outcome<'static> {
        Outcome::Status {
            inode,
            links: self.links(inode),
            size: self.files[&inode].len() as i64,
        }
    }

    fn release(&mut self, at: usize, len: usize) {
        let (from, to) = (at, at + pages(len));
        let mut rest = Vec::new();
        for (a, b) in self.held.drain(..) {
            if a < from.min(b) {
                rest.push((a, from.min(b)));
            }
            if to.max(a) < b {
                rest.push((to.max(a), b));
            }
        }
        self.held = rest;
        self.mapped.remove(&at);
    }

    fn perform(&mut self, action: Action, path: impl Fn(Name) -> String, bytes: &[u8]) -> Outcome<'static> {
        self.calls.push(action);
        match action {
            Action::Open(name) => match self.names.get(&path(name)).copied() {
                Some(inode) => Outcome::Opened(self.open_inode(inode)),
                None => failure("No such file or directory (os error 2)"),
            },
            Action::Create(name) => {
                assert!(!self.names.contains_key(&path(name)));
                let inode = self.put(&path(name), &[]);
                Outcome::Opened(self.open_inode(inode))
            }
            Action::LockShared { fd } => {
                if self.locked_by_others(fd, false) {
                    failure("Resource temporarily unavailable (os error 11)")
                } else {
                    self.shared.push(fd);
                    Outcome::Success
                }
            }
            Action::LockExclusive { fd } => {
                if self.locked_by_others(fd, true) {
                    failure("Resource temporarily unavailable (os error 11)")
                } else {
                    self.exclusive.push(fd);
                    Outcome::Success
                }
            }
            Action::Pause { millis } => {
                assert_eq!(millis, 1);
                self.pauses += 1;
                Outcome::Success
            }
            Action::Stat { fd } => self.status(self.open[&fd]),
            Action::StatName(name) => match self.names.get(&path(name)) {
                Some(inode) => self.status(*inode),
                None => failure("No such file or directory (os error 2)"),
            },
            Action::Reserve { len } => {
                let base = self.next_base;
                self.next_base += pages(len) + 5 * 4096;
                self.held.push((base, base + pages(len)));
                Outcome::Reserved(base)
            }
            Action::MapFile { fd, at, len } => {
                assert!(self.held.iter().any(|(a, b)| *a <= at && at + len <= *b));
                self.mapped.insert(at, self.open[&fd]);
                Outcome::Success
            }
            Action::Unmap { at, len } => {
                self.release(at, len);
                Outcome::Success
            }
            Action::Look { .. } => unreachable!(),
            Action::AdviseHuge { .. } => Outcome::Success,
            Action::Collapse { .. } => Outcome::Failure {
                text: "Resource temporarily unavailable (os error 11)".to_string(),
                again: true,
            },
            Action::Close { fd } => {
                self.open.remove(&fd);
                self.shared.retain(|f| *f != fd);
                self.exclusive.retain(|f| *f != fd);
                Outcome::Success
            }
            Action::Unlink(name) => {
                assert!(self.names.remove(&path(name)).is_some());
                Outcome::Success
            }
            Action::Link { file, name } => {
                if self.names.contains_key(&path(name)) {
                    failure("File exists (os error 17)")
                } else {
                    let inode = self.names[&path(file)];
                    self.names.insert(path(name), inode);
                    Outcome::Success
                }
            }
            Action::List => {
                self.listing = self.names.keys().map(|n| n["/dev/shm/".len()..].to_string()).collect();
                Outcome::Success
            }
            Action::NextName => Outcome::Name(self.listing.pop()),
            Action::Truncate { fd, len } => {
                let inode = self.open[&fd];
                self.files.get_mut(&inode).unwrap().resize(len, 0);
                Outcome::Success
            }
            Action::Write { fd, from } => {
                let inode = self.open[&fd];
                let count = (bytes.len() - from).min(100_000);
                self.files.get_mut(&inode).unwrap()[from..from + count]
                    .copy_from_slice(&bytes[from..from + count]);
                Outcome::Written { count: count as isize, text: String::new() }
            }
        }
    }

    fn run(&mut self, mut sharing: Sharing, bytes: &[u8]) -> Result<SharedRegion, String> {
        while let Some(action) = sharing.pending() {
            if let Action::Look { at, len } = action {
                let content = self.files[&self.mapped[&at]].clone();
                assert_eq!(content.len(), len);
                let outcome = Outcome::Contents(&content);
                assert!(sharing.expects(&outcome));
                sharing.step(outcome);
                continue;
            }
            let outcome = self.perform(action, |name| sharing.path_of(name).to_string(), bytes);
            assert!(sharing.expects(&outcome));
            sharing.step(outcome);
        }
        sharing.result().unwrap()
    }

    fn share(&mut self, bytes: &[u8], tag: &str) -> Result<SharedRegion, String> {
        let sharing = share(bytes, tag, HOST)?;
        self.run(sharing, bytes)
    }

    fn content(&self, region: &SharedRegion) -> &[u8] {
        &self.files[&self.mapped[&region.as_ptr()]]
    }

    fn drop_region(&mut self, region: SharedRegion) {
        let mut release = Release::new(region);
        while let Some(action) = release.pending() {
            let path = release.path().to_string();
            let outcome = self.perform(action, |_| path.clone(), &[]);
            release.step(outcome);
        }
    }
}

#[test]
fn share_attach_verify_and_cleanup() {
    let mut k = Kernel::new();
    let data: Vec<u8> = (0..300_000u32).map(|i| ((i % 251) ^ (i / 997)) as u8).collect();
    let tag = format!("test{}", PID);
    let a = k.share(&data, &tag).expect("publish");
    let b = k.share(&data, &tag).expect("attach");
    assert!(k.share(&[], &tag).is_err());
    assert_eq!(k.content(&a), &data[..]);
    assert_eq!(k.content(&b), &data[..]);
    // Different content must never attach to this object.
    let mut other = data.clone();
    other[12345] ^= 1;
    let c = k.share(&other, &tag).expect("distinct object");
    assert_ne!(a.as_ptr(), c.as_ptr());
    let path = format!("/dev/shm/{}{}-{:016x}-{}", PREFIX, tag, content_hash(&data), data.len());
    k.drop_region(a);
    assert!(k.names.contains_key(&path), "still in use by b");
    k.drop_region(b);
    assert!(!k.names.contains_key(&path), "last user unlinks");
    k.drop_region(c);
    assert!(k.names.is_empty());
    assert!(k.open.is_empty() && k.shared.is_empty() && k.exclusive.is_empty());
    assert!(k.held.is_empty());
}

#[test]
fn published_object_is_whole_and_alone() {
    let mut k = Kernel::new();
    let data = vec![7u8; 250_000];
    let region = k.share(&data, "threat").unwrap();
    assert_eq!(region.len(), 250_000);
    assert_eq!(region.as_ptr() % HUGE, 0);
    assert_eq!(k.held, vec![(region.as_ptr(), region.as_ptr() + pages(250_000))]);
    assert_eq!(k.names.len(), 1);
    let (path, inode) = k.names.iter().next().unwrap();
    assert!(path.starts_with("/dev/shm/coda-w1-threat-"));
    assert_eq!(k.files[inode], data);
    assert_eq!(k.open.len(), 1);
    assert_eq!(k.shared.len(), 1);
    let collapses = k.calls.iter().filter(|c| matches!(c, Action::Collapse { .. })).count();
    assert_eq!(collapses, 3);
    let writes = k.calls.iter().filter(|c| matches!(c, Action::Write { .. })).count();
    assert_eq!(writes, 3);
}

#[test]
fn colliding_object_is_never_used() {
    let mut k = Kernel::new();
    let data = vec![7u8; 10_000];
    let mut stale = data.clone();
    stale[100] = 8;
    let path = format!("/dev/shm/{}t-{:016x}-{}", PREFIX, content_hash(&data), data.len());
    assert_eq!(content_hash(&data), content_hash(&stale));
    k.put(&path, &stale);
    assert_eq!(k.share(&data, "t").err(), Some("content mismatch".to_string()));
    assert!(k.open.is_empty() && k.held.is_empty());
    assert!(k.names.contains_key(&path));
}

#[test]
fn partial_object_is_never_used() {
    let mut k = Kernel::new();
    let data = vec![7u8; 10_000];
    let path = format!("/dev/shm/{}t-{:016x}-{}", PREFIX, content_hash(&data), data.len());
    k.put(&path, &data[..9_000]);
    assert_eq!(k.share(&data, "t").err(), Some("size mismatch (9000 vs 10000)".to_string()));
    assert!(k.open.is_empty() && k.held.is_empty());
}

#[test]
fn busy_lock_is_given_up_after_fifty_tries() {
    let mut k = Kernel::new();
    let data = vec![7u8; 10];
    let inode = k.put("/dev/shm/x", &data);
    let fd = k.open_inode(inode);
    k.exclusive.push(fd);
    let result = k.run(attach("/dev/shm/x", &data), &data);
    assert_eq!(result.err(), Some("lock busy".to_string()));
    assert_eq!(k.pauses, 50);
    assert_eq!(k.open.len(), 1);
}

#[test]
fn attaching_alone_never_publishes() {
    let mut k = Kernel::new();
    let data = vec![7u8; 10];
    let result = k.run(attach("/dev/shm/x", &data), &data);
    assert_eq!(result.err(), Some("open: No such file or directory (os error 2)".to_string()));
    assert_eq!(k.calls, vec![Action::Open(Name::Object)]);
}

#[test]
fn sweep_takes_unused_leftovers_only() {
    let mut k = Kernel::new();
    let data = vec![7u8; 10];
    k.put("/dev/shm/coda-w1-old-0-1", b"a");
    k.put("/dev/shm/coda-w1-used-0-1", b"a");
    k.put("/dev/shm/coda-w1-x.tmp77", b"a");
    k.put("/dev/shm/other", b"a");
    k.use_object("/dev/shm/coda-w1-used-0-1");
    let region = k.share(&data, "new").unwrap();
    let left: Vec<&String> = k.names.keys().collect();
    assert_eq!(left.len(), 3);
    assert!(left[0].starts_with("/dev/shm/coda-w1-new-"));
    assert_eq!(left[1], "/dev/shm/coda-w1-used-0-1");
    assert_eq!(left[2], "/dev/shm/other");
    assert_eq!(k.open.len(), 2);
    k.drop_region(region);
    assert_eq!(k.names.len(), 2);
}

#[test]
fn second_sweep_removes_nothing() {
    let mut k = Kernel::new();
    let data = vec![7u8; 10];
    k.put("/dev/shm/coda-w1-old-0-1", b"a");
    k.put("/dev/shm/coda-w1-used-0-1", b"a");
    k.put("/dev/shm/coda-w1-x.tmp77", b"a");
    k.put("/dev/shm/other", b"a");
    k.use_object("/dev/shm/coda-w1-used-0-1");
    let path = "/dev/shm/coda-w1-t-0000000000000000-10";
    let removals = |k: &Kernel| {
        k.calls.iter().filter(|c| **c == Action::Unlink(Name::Leftover)).count()
    };

    let region = k.run(publish_then_attach(path, &data, PID), &data).unwrap();
    k.drop_region(region);
    let left = k.names.clone();
    assert_eq!(removals(&k), 2);
    assert_eq!(left.len(), 2);
    assert!(left.contains_key("/dev/shm/coda-w1-used-0-1"));
    assert!(left.contains_key("/dev/shm/other"));

    let region = k.run(publish_then_attach(path, &data, PID), &data).unwrap();
    k.drop_region(region);
    assert_eq!(removals(&k), 2);
    assert_eq!(k.names, left);
}

#[test]
fn lost_race_attaches_to_the_winner() {
    let mut k = Kernel::new();
    let data = vec![7u8; 10];
    let path = "/dev/shm/coda-w1-t-0000000000000000-10";
    k.put(path, &data);
    k.use_object(path);
    let region = k.run(publish_then_attach(path, &data, PID), &data).unwrap();
    assert_eq!(k.content(&region), &data[..]);
    assert_eq!(k.names.len(), 1);
    assert_eq!(k.open.len(), 2);
    k.drop_region(region);
    assert!(k.names.contains_key(path), "still in use by the winner");
}

#[test]
fn successor_under_the_same_name_is_kept() {
    let mut k = Kernel::new();
    let data = vec![7u8; 10];
    k.put("/dev/shm/x", &data);
    let region = k.run(attach("/dev/shm/x", &data), &data).unwrap();
    k.put("/dev/shm/x", &data);
    k.drop_region(region);
    assert!(k.names.contains_key("/dev/shm/x"));
    assert!(k.open.is_empty() && k.held.is_empty());
}

/// Drives a sharing by the given outcomes and returns the calls it asked for.
fn drive(sharing: &mut Sharing, outcomes: Vec<Outcome>) -> Vec<Action> {
    let mut calls = Vec::new();
    for outcome in outcomes {
        assert!(sharing.expects(&outcome));
        calls.push(sharing.pending().unwrap());
        sharing.step(outcome);
    }
    calls
}

fn refusal(sharing: Sharing) -> String {
    assert_eq!(sharing.pending(), None);
    match sharing.result() {
        Some(Err(error)) => error,
        _ => panic!("not refused"),
    }
}

#[test]
fn failures_while_mapping_are_undone() {
    let data = vec![7u8; 10];
    let opened = || {
        let mut s = attach("/dev/shm/x", &data);
        drive(&mut s, vec![Outcome::Opened(5), Outcome::Success]);
        s
    };
    let good = || Outcome::Status { inode: 1, links: 1, size: 10 };

    let mut s = opened();
    let calls = drive(&mut s, vec![failure("bad"), Outcome::Success]);
    assert_eq!(calls, vec![Action::Stat { fd: 5 }, Action::Close { fd: 5 }]);
    assert_eq!(refusal(s), "fstat: bad");

    let mut s = opened();
    drive(&mut s, vec![Outcome::Status { inode: 1, links: 0, size: 10 }, Outcome::Success]);
    assert_eq!(refusal(s), "object was removed");

    let mut s = opened();
    drive(&mut s, vec![Outcome::Status { inode: 1, links: 1, size: -3 }, Outcome::Success]);
    assert_eq!(refusal(s), "size mismatch (-3 vs 10)");

    let mut s = opened();
    let calls = drive(&mut s, vec![good(), failure("full"), Outcome::Success]);
    assert_eq!(calls[1], Action::Reserve { len: 10 + HUGE });
    assert_eq!(refusal(s), "mmap reserve: full");

    let mut s = opened();
    let calls = drive(
        &mut s,
        vec![good(), Outcome::Reserved(0x1000), failure("full"), Outcome::Success, Outcome::Success],
    );
    assert_eq!(calls[2], Action::MapFile { fd: 5, at: HUGE, len: 10 });
    assert_eq!(calls[3], Action::Unmap { at: 0x1000, len: 10 + HUGE });
    assert_eq!(calls[4], Action::Close { fd: 5 });
    assert_eq!(refusal(s), "mmap: full");

    let mut s = opened();
    let calls = drive(
        &mut s,
        vec![
            good(),
            Outcome::Reserved(0x1000),
            Outcome::Success,
            Outcome::Success,
            Outcome::Success,
            Outcome::Contents(&[7; 9]),
            Outcome::Success,
            Outcome::Success,
        ],
    );
    assert_eq!(calls[3], Action::Unmap { at: 0x1000, len: HUGE - 0x1000 });
    assert_eq!(calls[4], Action::Unmap { at: HUGE + 4096, len: 10 });
    assert_eq!(calls[5], Action::Look { at: HUGE, len: 10 });
    assert_eq!(calls[6], Action::Unmap { at: HUGE, len: 10 });
    assert_eq!(refusal(s), "content mismatch");
}

#[test]
fn failures_while_publishing_are_undone() {
    let data = vec![7u8; 10];
    let created = || {
        let mut s = publish_then_attach("/dev/shm/x", &data, PID);
        let calls = drive(&mut s, vec![failure("no directory"), Outcome::Opened(5)]);
        assert_eq!(calls, vec![Action::List, Action::Create(Name::Temporary)]);
        assert_eq!(s.path_of(Name::Temporary), "/dev/shm/x.tmp4242");
        s
    };
    let cleanup = || vec![Action::Unlink(Name::Temporary), Action::Close { fd: 5 }];

    let mut s = publish_then_attach("/dev/shm/x", &data, PID);
    drive(&mut s, vec![Outcome::Success, Outcome::Name(None), failure("denied")]);
    assert_eq!(refusal(s), "create: denied");

    let mut s = created();
    let calls = drive(&mut s, vec![failure("busy"), Outcome::Success, Outcome::Success]);
    assert_eq!(calls[1..], cleanup());
    assert_eq!(refusal(s), "flock: busy");

    let mut s = created();
    let calls =
        drive(&mut s, vec![Outcome::Success, failure("big"), Outcome::Success, Outcome::Success]);
    assert_eq!(calls[1], Action::Truncate { fd: 5, len: 10 });
    assert_eq!(calls[2..], cleanup());
    assert_eq!(refusal(s), "ftruncate: big");

    let mut s = created();
    let calls = drive(
        &mut s,
        vec![
            Outcome::Success,
            Outcome::Success,
            Outcome::Written { count: 4, text: String::new() },
            Outcome::Written { count: 0, text: "No space left on device".to_string() },
            Outcome::Success,
            Outcome::Success,
        ],
    );
    assert_eq!(calls[2], Action::Write { fd: 5, from: 0 });
    assert_eq!(calls[3], Action::Write { fd: 5, from: 4 });
    assert_eq!(calls[4..], cleanup());
    assert_eq!(refusal(s), "write: No space left on device");

    // An object that was put up and cannot be mapped is withdrawn.
    let mut s = created();
    let calls = drive(
        &mut s,
        vec![
            Outcome::Success,
            Outcome::Success,
            Outcome::Written { count: 10, text: String::new() },
            Outcome::Success,
            Outcome::Success,
            failure("gone"),
            Outcome::Success,
            Outcome::Success,
        ],
    );
    assert_eq!(
        calls[3..],
        [
            Action::Link { file: Name::Temporary, name: Name::Object },
            Action::Unlink(Name::Temporary),
            Action::Stat { fd: 5 },
            Action::Unlink(Name::Object),
            Action::Close { fd: 5 },
        ]
    );
    assert_eq!(refusal(s), "fstat: gone");
}

#[test]
fn only_a_missing_object_is_published() {
    let data = vec![7u8; 10];
    let mut s = share(&data, "t", HOST).ok().unwrap();
    drive(&mut s, vec![failure("Permission denied (os error 13)")]);
    assert_eq!(refusal(s), "open: Permission denied (os error 13)");
    let mut s = share(&data, "t", HOST).ok().unwrap();
    drive(&mut s, vec![failure("No such file or directory (os error 2)")]);
    assert_eq!(s.pending(), Some(Action::List));
}

/// What leads to a region at `HUGE`, of the file 5.
fn good_outcomes(data: &[u8]) -> Vec<Outcome<'_>> {
    vec![
        Outcome::Opened(5),
        Outcome::Success,
        Outcome::Status { inode: 1, links: 1, size: data.len() as i64 },
        Outcome::Reserved(HUGE),
        Outcome::Success,
        Outcome::Success,
        Outcome::Contents(data),
        failure("no advice"),
        Outcome::Failure { text: String::new(), again: true },
        failure("invalid"),
    ]
}

#[test]
fn collapse_is_tried_again_only_where_told() {
    let data = vec![7u8; 10];
    let mut s = attach("/dev/shm/x", &data);
    drive(&mut s, good_outcomes(&data));
    assert_eq!(s.pending(), None);
    let region = s.result().unwrap().ok().unwrap();
    assert_eq!(region.as_ptr(), HUGE);
    assert_eq!(region.len(), 10);
}

#[test]
fn best_outcomes_share_the_array_in_nineteen_calls() {
    let data = vec![7u8; 10];
    let again = || Outcome::Failure { text: String::new(), again: true };
    let mut s = share(&data, "t", HOST).ok().unwrap();
    let calls = drive(
        &mut s,
        vec![
            failure("No such file or directory (os error 2)"),
            Outcome::Success,
            Outcome::Name(None),
            Outcome::Opened(5),
            Outcome::Success,
            Outcome::Success,
            Outcome::Written { count: 10, text: String::new() },
            Outcome::Success,
            Outcome::Success,
            Outcome::Status { inode: 1, links: 1, size: 10 },
            Outcome::Reserved(0x1000),
            Outcome::Success,
            Outcome::Success,
            Outcome::Success,
            Outcome::Contents(&data),
            Outcome::Success,
            again(),
            again(),
            again(),
        ],
    );
    assert_eq!(calls.len(), 19);
    assert_eq!(s.pending(), None);
    assert_eq!(s.result().unwrap().ok().unwrap().as_ptr(), HUGE);
}

#[test]
fn files_short_writes_and_a_lost_race_are_no_obstacle() {
    let data = vec![7u8; 10];
    let mut s = share(&data, "t", HOST).ok().unwrap();
    let calls = drive(
        &mut s,
        vec![
            failure("No such file or directory (os error 2)"),
            Outcome::Success,
            Outcome::Name(Some("other".to_string())),
            Outcome::Name(Some("coda-w1-gone-0-1".to_string())),
            failure("No such file or directory (os error 2)"),
            Outcome::Name(Some("coda-w1-used-0-1".to_string())),
            Outcome::Opened(9),
            failure("busy"),
            Outcome::Success,
            Outcome::Name(Some("coda-w1-old-0-1".to_string())),
            Outcome::Opened(9),
            Outcome::Success,
            failure("denied"),
            Outcome::Success,
            Outcome::Name(None),
            Outcome::Opened(5),
            Outcome::Success,
            Outcome::Success,
            Outcome::Written { count: 1, text: String::new() },
            Outcome::Written { count: 3, text: String::new() },
            Outcome::Written { count: 6, text: String::new() },
            failure("File exists (os error 17)"),
            Outcome::Success,
            Outcome::Success,
            Outcome::Opened(6),
            failure("busy"),
            Outcome::Success,
            Outcome::Success,
            Outcome::Status { inode: 1, links: 1, size: 10 },
            Outcome::Reserved(HUGE),
            Outcome::Success,
            Outcome::Success,
            Outcome::Contents(&data),
            failure("no advice"),
            failure("invalid"),
        ],
    );
    assert_eq!(calls[18..21], [0, 1, 4].map(|from| Action::Write { fd: 5, from }));
    assert_eq!(calls[23..26], [
        Action::Close { fd: 5 },
        Action::Open(Name::Object),
        Action::LockShared { fd: 6 },
    ]);
    assert!(calls.len() <= 19 + 2 * 50 + data.len() + 5 * 4);
    assert_eq!(s.pending(), None);
    let region = s.result().unwrap().ok().unwrap();
    assert_eq!((region.as_ptr(), region.len()), (HUGE, 10));
}

#[test]
fn lock_is_kept_as_long_as_the_mapping() {
    let mut k = Kernel::new();
    let data = vec![7u8; 10];
    let region = k.share(&data, "t").unwrap();
    let at = region.as_ptr();
    k.calls.clear();
    k.drop_region(region);
    assert_eq!(k.calls[0], Action::Unmap { at, len: 10 });
    assert!(matches!(k.calls[1], Action::LockExclusive { .. }));
    let closed = k.calls.iter().filter(|c| matches!(c, Action::Close { .. })).count();
    assert_eq!(closed, 1);
    assert!(matches!(k.calls.last(), Some(Action::Close { .. })));
}

#[test]
fn unexpected_outcomes_are_told_apart() {
    let data = vec![7u8; 10];
    let mut s = attach("/dev/shm/x", &data);
    assert!(!s.expects(&Outcome::Success));
    assert!(!s.expects(&Outcome::Contents(&data)));
    s.step(Outcome::Opened(5));
    assert!(!s.expects(&Outcome::Opened(6)));
    s.step(Outcome::Success);
    s.step(Outcome::Status { inode: 1, links: 1, size: 10 });
    assert!(!s.expects(&Outcome::Reserved(usize::MAX)));
    assert!(s.expects(&Outcome::Reserved(0x1000)));
    assert!(s.result().is_none());
}

#[test]
fn objections_come_before_any_call() {
    let data = vec![7u8; 10];
    let err = |bytes: &[u8], tag: &str, host: Host| share(bytes, tag, host).err();
    let off = Host { enabled: false, ..HOST };
    let unsupported = Host { supported: false, ..HOST };
    assert_eq!(err(&[], "t", off), Some("empty array".to_string()));
    assert_eq!(err(&data, "t", off), Some("disabled".to_string()));
    assert_eq!(
        err(&data, "t\0", unsupported),
        Some("not supported on this platform".to_string())
    );
    assert_eq!(err(&data, "t\0", HOST), Some("bad name".to_string()));
    assert_eq!(err(&data, "t", HOST), None);
}

#[test]
fn release_ends_whatever_happens() {
    let data = vec![7u8; 10];
    let region = || {
        let mut s = attach("/dev/shm/x", &data);
        drive(&mut s, good_outcomes(&data));
        s.result().unwrap().ok().unwrap()
    };
    let mut r = Release::new(region());
    assert_eq!(r.pending(), Some(Action::Unmap { at: HUGE, len: 10 }));
    r.step(Outcome::Success);
    assert_eq!(r.pending(), Some(Action::LockExclusive { fd: 5 }));
    r.step(failure("busy"));
    assert_eq!(r.pending(), Some(Action::Close { fd: 5 }));
    r.step(Outcome::Success);
    assert_eq!(r.pending(), None);

    let mut r = Release::new(region());
    r.step(Outcome::Success);
    r.step(Outcome::Success);
    assert_eq!(r.pending(), Some(Action::Stat { fd: 5 }));
    r.step(failure("bad"));
    assert_eq!(r.pending(), Some(Action::Close { fd: 5 }));

    let mut r = Release::new(region());
    r.step(Outcome::Success);
    r.step(Outcome::Success);
    r.step(Outcome::Status { inode: 9, links: 1, size: 10 });
    assert_eq!(r.pending(), Some(Action::StatName(Name::Object)));
    r.step(Outcome::Status { inode: 9, links: 1, size: 10 });
    assert_eq!(r.pending(), Some(Action::Unlink(Name::Object)));
    assert_eq!(r.path(), "/dev/shm/x");
    r.step(Outcome::Success);
    assert_eq!(r.pending(), Some(Action::Close { fd: 5 }));
}

#[test]
fn content_is_compared_byte_for_byte() {
    assert!(same_content(&[], &[]));
    assert!(same_content(&[1, 2, 3], &[1, 2, 3]));
    assert!(!same_content(&[1, 2, 3], &[1, 2, 4]));
    assert!(!same_content(&[1, 2, 3], &[1, 2]));
}

#[test]
fn switches_and_words() {
    assert!(enabled(true, None));
    assert!(!enabled(false, None));
    assert!(!enabled(true, Some("")));
    assert!(!enabled(true, Some("1")));
    assert_eq!(errno("open", "no"), "open: no");
}

#[test]
fn policy_is_the_bracketed_word() {
    let policy = |s: &str| shmem_thp_policy(Some(s));
    assert_eq!(policy("always within_size advise [never] deny force\n"), "never");
    assert_eq!(policy("[always] never"), "always");
    assert_eq!(policy("no brackets"), "n/a");
    assert_eq!(policy("a [b"), "b");
    assert_eq!(policy("a [b [c] d]"), "b ");
    assert_eq!(policy("] [x]"), "x");
    assert_eq!(policy("[]"), "");
    assert_eq!(shmem_thp_policy(None), "n/a");
}
