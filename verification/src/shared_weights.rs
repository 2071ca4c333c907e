//! Cross-process sharing of the large read-only weight arrays.
//!
//! Every process builds the same weight matrices at load time. Several processes
//! on one machine would otherwise each hold a private copy, so the same hot rows
//! compete for the shared cache once per process. With a single physical copy
//! those rows occupy it once.
//!
//! - Each process still loads the net privately, so the bytes it expects are
//!   known locally.
//! - The shared object is a file in `/dev/shm` named by a hash of those bytes and
//!   their length. A process maps it read-only and compares it byte for byte with
//!   its private copy before switching over, so a stale, partial or colliding
//!   object can never be used: on any mismatch or error the private copy is kept.
//! - Publishing writes a temporary file, then links it to the final name, which
//!   fails if the name already exists, so a finished object is never replaced
//!   under a reader.
//! - Every user holds a shared lock on the object for as long as it maps it. A
//!   process that can take the lock exclusively knows it is the last user and
//!   unlinks the name.

use vstd::prelude::*;
use vstd::string::StrSliceExecFns;

use crate::naming::{contains_nul, content_hash, object_name, temporary_name};
use crate::sharing::{Phase, Sharing, Side};
use crate::system::{Action, Name};
use crate::text::{chars_of, find_from};

verus! {

use crate::hugepage::content;
use crate::naming::{
    has_nul, hash_of, law_object_path_is_injective, law_object_path_tells_the_array,
    law_temporary_path_is_injective, law_temporary_path_tells_the_process, lemma_path_nul,
    lemma_temporary_nul, object_path, temporary_path,
};
use crate::number::{decimal, number};
use crate::sharing::{start, Run};
use crate::text::first_at;

/// Whether arrays are shared: the switch is on, and the opt-out variable of the
/// environment has no readable value.
pub fn enabled(switch: bool, opt_out: Option<&str>) -> (r: bool)
    ensures
        r == (switch && opt_out is None),
{
    switch && opt_out.is_none()
}

/// The huge-page policy in the text of `shmem_enabled`: what stands in the first
/// pair of brackets.
pub open spec fn bracketed(text: Option<Seq<char>>) -> Seq<char> {
    match text {
        Some(s) => {
            let open = first_at(s, '[', 0);
            if open < s.len() {
                let next = first_at(s, '[', open + 1);
                let close = first_at(s, ']', open + 1);
                s.subrange(open + 1, if close < next { close } else { next })
            } else {
                "n/a"@
            }
        },
        None => "n/a"@,
    }
}

/// The host's huge-page policy for shared memory (the bracketed value of
/// `/sys/kernel/mm/transparent_hugepage/shmem_enabled`). With "never" a shared
/// copy lives on 4 KB pages, where a private copy can have 2 MB ones.
pub fn shmem_thp_policy(text: Option<&str>) -> (r: String)
    ensures
        r@ == bracketed(content(text)),
{
    match text {
        Some(s) => {
            let chars = chars_of(s);
            let open = find_from(chars.as_slice(), '[', 0);
            if open < chars.len() {
                let next = find_from(chars.as_slice(), '[', open + 1);
                let close = find_from(chars.as_slice(), ']', open + 1);
                s.substring_char(open + 1, if close < next { close } else { next }).to_owned()
            } else {
                "n/a".to_owned()
            }
        },
        None => "n/a".to_owned(),
    }
}

/// What is known of the process that shares, and of its host.
#[derive(Debug, Clone, Copy, PartialEq, Eq, Structural)]
pub struct Host {
    /// Whether sharing is enabled.
    pub enabled: bool,
    /// Whether the platform can share.
    pub supported: bool,
    /// The process, whose number makes its temporary names its own.
    pub pid: u32,
}

/// Why an array is not even tried to be shared, if so.
pub open spec fn objection(bytes: Seq<u8>, tag: Seq<char>, host: Host) -> Option<Seq<char>> {
    if bytes.len() == 0 {
        Some("empty array"@)
    } else if !host.enabled {
        Some("disabled"@)
    } else if !host.supported {
        Some("not supported on this platform"@)
    } else if has_nul(tag) {
        Some("bad name"@)
    } else {
        None
    }
}

/// Where the sharing of an array starts: with the attempt to attach to the object
/// of its name, or else to publish it.
pub open spec fn first_step(bytes: Seq<u8>, tag: Seq<char>, pid: u32) -> Run {
    let path = object_path(tag, hash_of(bytes), bytes.len());
    start(bytes, path, temporary_path(path, pid), Phase::Open { side: Side::First })
}

/// Starts to back `bytes` with a shared read-only mapping holding identical
/// content. `tag` separates the different arrays of one net in the name. On
/// failure returns the reason, so that the caller can report why it fell back to
/// a private copy instead of failing silently.
pub fn share<'a>(bytes: &'a [u8], tag: &str, host: Host) -> (r: Result<Sharing<'a>, String>)
    requires
        bytes@.len() <= isize::MAX,
    ensures
        match objection(bytes@, tag@, host) {
            Some(reason) => r matches Err(error) && error@ == reason,
            None => r matches Ok(sharing) && sharing@ == first_step(bytes@, tag@, host.pid)
                && sharing@.bytes == bytes@ && sharing@.path_of(Name::Temporary)
                == sharing@.path_of(Name::Object) + ".tmp"@ + decimal(host.pid as nat)
                && sharing@.valid(),
        },
{
    if bytes.len() == 0 {
        return Err("empty array".to_owned());
    }
    if !host.enabled {
        return Err("disabled".to_owned());
    }
    if !host.supported {
        return Err("not supported on this platform".to_owned());
    }
    let path = object_name(tag, content_hash(bytes), bytes.len());
    proof {
        lemma_path_nul(tag@, hash_of(bytes@), bytes@.len());
        lemma_temporary_nul(path@, host.pid);
    }
    if contains_nul(path.as_str()) {
        return Err("bad name".to_owned());
    }
    let temporary = temporary_name(path.as_str(), host.pid);
    Ok(Sharing::new(bytes, path, temporary, Phase::Open { side: Side::First }))
}

/// A sharing prepares its object beside it: the temporary file has the path of the
/// object, with `.tmp` and the number of the process behind it. Both lie in the
/// directory of shared memory under the common prefix, where one can be linked to
/// the other and a sweep finds what a crash has left.
pub proof fn law_share_prepares_beside_the_object(bytes: Seq<u8>, tag: Seq<char>, pid: u32)
    ensures
        ({
            let run = first_step(bytes, tag, pid);
            let object = run.path_of(Name::Object);
            let temporary = run.path_of(Name::Temporary);
            &&& run.bytes == bytes
            &&& run.phase == (Phase::Open { side: Side::First })
            &&& run.pending() == Some(Action::Open(Name::Object))
            &&& object.len() > 17 && object.take(17) == "/dev/shm/coda-w1-"@
            &&& temporary.len() > 17 && temporary.take(17) == "/dev/shm/coda-w1-"@
            &&& temporary == object + ".tmp"@ + decimal(pid as nat)
            &&& number(temporary.skip(object.len() as int + 4), 10) == Some(pid as usize)
            &&& forall|i: int| 17 <= i < temporary.len() && i < 17 + tag.len() ==> #[trigger]
                temporary[i] == tag[i - 17]
        }),
{
    let run = first_step(bytes, tag, pid);
    law_object_path_tells_the_array(tag, hash_of(bytes), bytes.len());
    law_temporary_path_tells_the_process(run.path, pid);
    let object = run.path;
    let temporary = run.temporary;
    assert(temporary.take(17) =~= object.take(17)) by {
        assert forall|i: int| 0 <= i < 17 implies temporary[i] == object[i] by {
            assert(temporary.take(object.len() as int)[i] == object[i]);
        }
    }
    assert forall|i: int| 17 <= i < 17 + tag.len() implies #[trigger] temporary[i] == tag[i
        - 17] by {
        assert(temporary.take(object.len() as int)[i] == object[i]);
        assert(object.subrange(17, 17 + tag.len() as int)[i - 17] == object[i]);
    }
}

/// Processes that share the same array under the same tag come to the same object,
/// but prepare it under paths of their own. Arrays with different tags, hashes or
/// lengths have different objects, and are prepared under different paths.
pub proof fn law_share_names_are_told_apart(
    bytes1: Seq<u8>,
    tag1: Seq<char>,
    pid1: u32,
    bytes2: Seq<u8>,
    tag2: Seq<char>,
    pid2: u32,
)
    ensures
        ({
            let one = first_step(bytes1, tag1, pid1);
            let two = first_step(bytes2, tag2, pid2);
            let same = tag1 == tag2 && hash_of(bytes1) == hash_of(bytes2) && bytes1.len()
                == bytes2.len();
            &&& one.path_of(Name::Object) == two.path_of(Name::Object) <==> same
            &&& one.path_of(Name::Temporary) == two.path_of(Name::Temporary) <==> same && pid1
                == pid2
        }),
{
    let one = first_step(bytes1, tag1, pid1);
    let two = first_step(bytes2, tag2, pid2);
    if one.path == two.path {
        law_object_path_is_injective(
            tag1,
            hash_of(bytes1),
            bytes1.len(),
            tag2,
            hash_of(bytes2),
            bytes2.len(),
        );
    }
    if one.temporary == two.temporary {
        law_temporary_path_is_injective(one.path, pid1, two.path, pid2);
        law_object_path_is_injective(
            tag1,
            hash_of(bytes1),
            bytes1.len(),
            tag2,
            hash_of(bytes2),
            bytes2.len(),
        );
    }
}

/// An array is tried to be shared exactly where it has bytes, sharing is enabled
/// and supported, and its tag can stand in a path; else the first of these that
/// fails is the reason.
pub proof fn law_objections_are_the_only_ones(bytes: Seq<u8>, tag: Seq<char>, host: Host)
    ensures
        objection(bytes, tag, host) is None <==> bytes.len() > 0 && host.enabled && host.supported
            && (forall|i: int| 0 <= i < tag.len() ==> #[trigger] tag[i] != '\0'),
        bytes.len() == 0 ==> objection(bytes, tag, host) == Some("empty array"@),
        bytes.len() > 0 && !host.enabled ==> objection(bytes, tag, host) == Some("disabled"@),
        bytes.len() > 0 && host.enabled && !host.supported ==> objection(bytes, tag, host) == Some(
            "not supported on this platform"@,
        ),
        (exists|i: int| 0 <= i < tag.len() && #[trigger] tag[i] == '\0') && bytes.len() > 0
            && host.enabled && host.supported ==> objection(bytes, tag, host) == Some("bad name"@),
{
}

} // verus!
