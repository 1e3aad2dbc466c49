//! Where the store lies, and what makes a file of it private.

use crate::credentials::store::auth_store_failure;
use crate::credentials::store;
use crate::error::{usage, ErrorModel, RuntimeError};
use crate::error;
use crate::text::same_text;
use crate::text;
use vstd::prelude::*;

verus! {

/// Where the configuration of a user lies: a directory that the environment names, and
/// what stands below it.
pub struct ConfigBase {
    pub root: String,
    pub below: Vec<String>,
}

/// The directory that the environment names: on one platform the home directory, on the
/// others the configuration directory where that is not empty, and else the home
/// directory.
pub open spec fn config_root(
    macos: bool,
    config_home: Option<Seq<char>>,
    home: Option<Seq<char>>,
) -> Option<Seq<char>> {
    if !macos && config_home is Some && config_home->0.len() > 0 {
        config_home
    } else {
        home
    }
}

/// What stands below the directory that the environment names.
pub open spec fn config_below(macos: bool, config_home: Option<Seq<char>>) -> Seq<Seq<char>> {
    let leaves = seq!["flow-agent"@, "credentials.json"@];
    if macos {
        seq!["Library"@, "Application Support"@] + leaves
    } else if config_home is Some && config_home->0.len() > 0 {
        leaves
    } else {
        seq![".config"@] + leaves
    }
}

/// Where the store of credentials lies. Whether the directory that the environment names
/// is absolute has to be checked with it.
pub fn default_credential_store_path(
    macos: bool,
    config_home: Option<String>,
    home: Option<String>,
) -> (result: Result<ConfigBase, RuntimeError>)
    ensures
        ({
            let configured = text::optional_view(config_home);
            let root = config_root(macos, configured, text::optional_view(home));
            &&& error::failure(result) == (if root is None {
                error::usage_failure("platform user configuration directory is unavailable"@)
            } else {
                None
            })
            &&& result matches Ok(base) ==> Some(base.root@) == root && text::texts_view(base.below@)
                == config_below(macos, configured)
        }),
{
    let ghost configured = text::optional_view(config_home);
    let mut below: Vec<String> = Vec::new();
    let chosen = match config_home {
        Some(config_home) => {
            if !macos && config_home.as_str().as_bytes().len() > 0 {
                Some(config_home)
            } else {
                None
            }
        },
        None => None,
    };
    proof {
        if configured is Some {
            lemma_empty_text(configured->0);
        }
    }
    let root = match chosen {
        Some(root) => root,
        None => {
            if macos {
                below.push("Library".to_owned());
                below.push("Application Support".to_owned());
            } else {
                below.push(".config".to_owned());
            }
            match home {
                Some(home) => home,
                None => {
                    return Err(usage("platform user configuration directory is unavailable"));
                },
            }
        },
    };
    below.push("flow-agent".to_owned());
    below.push("credentials.json".to_owned());
    assert(text::texts_view(below@) =~= config_below(macos, configured));
    Ok(ConfigBase { root, below })
}

proof fn lemma_empty_text(text: Seq<char>)
    ensures
        vstd::utf8::encode_utf8(text).len() == 0 <==> text.len() == 0,
{
    if vstd::utf8::encode_utf8(text).len() == 0 {
        vstd::utf8::encode_utf8_decode_utf8(text);
        assert(vstd::utf8::encode_utf8(text) =~= Seq::<u8>::empty());
        let none: Seq<char> = Seq::empty();
        vstd::utf8::encode_utf8_decode_utf8(none);
        assert(vstd::utf8::encode_utf8(none) =~= Seq::<u8>::empty());
    }
}

/// Accepts the directory that the environment names: it is absolute.
pub fn check_config_base(absolute: bool) -> (result: Result<(), RuntimeError>)
    ensures
        error::failure(result) == (if absolute {
            None
        } else {
            error::usage_failure("platform user configuration directory must be absolute"@)
        }),
{
    if !absolute {
        return Err(usage("platform user configuration directory must be absolute"));
    }
    Ok(())
}

/// What is known of an open file: whether it is one, its mode, and whether its owner and
/// its mode keep others out.
#[derive(Clone, Copy, Debug, PartialEq, Eq, Structural)]
pub struct OpenFileAccess {
    pub is_file: bool,
    pub mode: u32,
    pub private: bool,
}

/// Whether the owner, and no one else, may read and write a file and not run it.
pub open spec fn is_private_access(access: OpenFileAccess) -> bool {
    access.is_file && access.private && access.mode & 0o700 == 0o600
}

/// What is wrong with an open file that must be private.
pub open spec fn private_failure(access: OpenFileAccess, extended: Result<bool, RuntimeError>) -> Option<
    ErrorModel,
> {
    if !is_private_access(access) {
        store::store_failure()
    } else {
        match extended {
            Err(error) => Some(error@),
            Ok(extended) => if extended {
                store::store_failure()
            } else {
                None
            },
        }
    }
}

/// Accepts an open file that is private; `extended` is whether further entries say who
/// may use it.
pub fn verify_private_open_file(access: OpenFileAccess, extended: Result<bool, RuntimeError>) -> (result:
    Result<(), RuntimeError>)
    ensures
        error::failure(result) == private_failure(access, extended),
{
    if !access.is_file || !access.private || access.mode & 0o700 != 0o600 {
        return Err(auth_store_failure());
    }
    if extended? {
        return Err(auth_store_failure());
    }
    Ok(())
}

/// Accepts a lock file that was there or was made: it is a file, and gives no one but its
/// owner anything.
pub fn check_lock_file(is_file: bool, mode: u32) -> (result: Result<(), RuntimeError>)
    ensures
        error::failure(result) == (if !is_file || mode & 0o777 & !0o600u32 != 0 {
            store::store_failure()
        } else {
            None
        }),
{
    if !is_file || mode & 0o777 & !0o600u32 != 0 {
        return Err(auth_store_failure());
    }
    Ok(())
}

/// A file that is accepted as private may be read and written by its owner, and not run:
/// the mode of a lock file that is accepted has none of the other bits.
pub proof fn law_lock_file_bits(mode: u32)
    requires
        mode & 0o777 & !0o600u32 == 0,
    ensures
        mode & 0o077 == 0,
        mode & 0o100 == 0,
{
    assert(mode & 0o077 == 0 && mode & 0o100 == 0) by (bit_vector)
        requires
            mode & 0o777 & !0o600u32 == 0,
    ;
}

/// What is known of the directory that all directories above the store are durable from.
#[derive(Clone, Copy, Debug, PartialEq, Eq, Structural)]
pub struct AncestorKind {
    pub is_directory: bool,
    pub is_link: bool,
    pub is_reparse_point: bool,
}

/// What is wrong with the directory that is durable.
pub open spec fn ancestor_failure(above: bool, kind: Result<AncestorKind, RuntimeError>) -> Option<
    ErrorModel,
> {
    if !above {
        store::store_failure()
    } else {
        match kind {
            Err(error) => Some(error@),
            Ok(kind) => if !kind.is_directory || kind.is_link || kind.is_reparse_point {
                store::store_failure()
            } else {
                None
            },
        }
    }
}

/// Accepts the directory that is durable: it stands above the store, and is a directory
/// and no link.
pub fn validate_durable_ancestor(above: bool, kind: Result<AncestorKind, RuntimeError>) -> (result:
    Result<(), RuntimeError>)
    ensures
        error::failure(result) == ancestor_failure(above, kind),
{
    if !above {
        return Err(auth_store_failure());
    }
    let kind = kind?;
    if !kind.is_directory || kind.is_link || kind.is_reparse_point {
        return Err(auth_store_failure());
    }
    Ok(())
}

/// What is to be done next on the way from the durable directory to that of the store.
#[derive(Clone, Copy, Debug, PartialEq, Eq, Structural)]
pub enum WalkStage {
    /// Open the durable directory; no one else may write in it.
    OpenAnchor,
    /// See that the durable directory is private: it is that of the store.
    CheckAnchor,
    /// Open the directory at this place on the way; no one else may write in it.
    Open(usize),
    /// Make the directory at this place, which is missing, private.
    Create(usize),
    /// Open the directory of the store, which must be private; it is made where it may
    /// be.
    OpenPrivate,
    /// Make the directory at this depth durable.
    Sync(usize),
    /// The directory of the store is open.
    Found,
    /// There is no directory of the store.
    Absent,
}

/// The way to the directory of the store, over so many directories.
pub struct ParentWalk {
    pub leaves: usize,
    pub create: bool,
    pub stage: WalkStage,
}

/// The stage that opens the directory at a place.
pub open spec fn opening(leaves: usize, place: int) -> WalkStage {
    if place + 1 == leaves {
        WalkStage::OpenPrivate
    } else {
        WalkStage::Open(place as usize)
    }
}

/// The stage behind the last directory.
pub open spec fn walked(leaves: usize, create: bool) -> WalkStage {
    if create {
        WalkStage::Sync(leaves)
    } else {
        WalkStage::Found
    }
}

/// The stage behind another one; `there` is whether the directory was there or was made.
pub open spec fn next_walk(leaves: usize, create: bool, stage: WalkStage, there: bool) -> WalkStage {
    match stage {
        WalkStage::OpenAnchor => if leaves == 0 {
            WalkStage::CheckAnchor
        } else {
            opening(leaves, 0)
        },
        WalkStage::CheckAnchor => walked(leaves, create),
        WalkStage::Open(place) => if there {
            opening(leaves, place + 1)
        } else if create {
            WalkStage::Create(place)
        } else {
            WalkStage::Absent
        },
        WalkStage::Create(place) => if there {
            opening(leaves, place + 1)
        } else {
            WalkStage::Absent
        },
        WalkStage::OpenPrivate => if there {
            walked(leaves, create)
        } else {
            WalkStage::Absent
        },
        WalkStage::Sync(depth) => if depth == 0 {
            WalkStage::Found
        } else {
            WalkStage::Sync((depth - 1) as usize)
        },
        WalkStage::Found => WalkStage::Found,
        WalkStage::Absent => WalkStage::Absent,
    }
}

/// How far a stage is from the end.
pub open spec fn walk_rank(leaves: usize, stage: WalkStage) -> int {
    match stage {
        WalkStage::OpenAnchor => 3 * leaves + 6,
        WalkStage::CheckAnchor => leaves + 2,
        WalkStage::Open(place) => leaves + 3 + 2 * (leaves - place),
        WalkStage::Create(place) => leaves + 2 + 2 * (leaves - place),
        WalkStage::OpenPrivate => leaves + 2,
        WalkStage::Sync(depth) => depth + 1,
        WalkStage::Found => 0,
        WalkStage::Absent => 0,
    }
}

impl ParentWalk {
    /// Whether the stage is one of a way of that length.
    pub open spec fn sound(self) -> bool {
        match self.stage {
            WalkStage::Open(place) => place + 1 < self.leaves,
            WalkStage::Create(place) => self.create && place + 1 < self.leaves,
            WalkStage::Sync(depth) => self.create && depth <= self.leaves,
            _ => true,
        }
    }

    /// The way to the directory of the store: `plain` is whether it goes down from one
    /// directory to the next and in no other way.
    pub fn open_credential_parent(leaves: usize, plain: bool, create: bool) -> (result: Result<
        ParentWalk,
        RuntimeError,
    >)
        ensures
            error::failure(result) == (if plain {
                None
            } else {
                store::store_failure()
            }),
            result matches Ok(walk) ==> walk.sound() && walk.leaves == leaves && walk.create
                == create && walk.stage is OpenAnchor,
    {
        if !plain {
            return Err(auth_store_failure());
        }
        Ok(ParentWalk { leaves, create, stage: WalkStage::OpenAnchor })
    }

    /// Goes on by what came of the stage: whether the directory was there, or was made.
    pub fn advance(&mut self, outcome: Result<bool, RuntimeError>) -> (result: Result<
        (),
        RuntimeError,
    >)
        requires
            old(self).sound(),
        ensures
            error::failure(result) == error::failure(outcome),
            final(self).sound(),
            final(self).leaves == old(self).leaves,
            final(self).create == old(self).create,
            final(self).stage == (match outcome {
                Ok(there) => next_walk(
                    old(self).leaves,
                    old(self).create,
                    old(self).stage,
                    there,
                ),
                Err(_) => old(self).stage,
            }),
    {
        let there = outcome?;
        let after = match self.stage {
            WalkStage::OpenAnchor => {
                if self.leaves == 0 {
                    WalkStage::CheckAnchor
                } else {
                    self.open_place(0)
                }
            },
            WalkStage::CheckAnchor => self.behind_last(),
            WalkStage::Open(place) => {
                if there {
                    self.open_place(place + 1)
                } else if self.create {
                    WalkStage::Create(place)
                } else {
                    WalkStage::Absent
                }
            },
            WalkStage::Create(place) => {
                if there {
                    self.open_place(place + 1)
                } else {
                    WalkStage::Absent
                }
            },
            WalkStage::OpenPrivate => {
                if there {
                    self.behind_last()
                } else {
                    WalkStage::Absent
                }
            },
            WalkStage::Sync(depth) => {
                if depth == 0 {
                    WalkStage::Found
                } else {
                    WalkStage::Sync(depth - 1)
                }
            },
            WalkStage::Found => WalkStage::Found,
            WalkStage::Absent => WalkStage::Absent,
        };
        self.stage = after;
        Ok(())
    }

    fn open_place(&self, place: usize) -> (stage: WalkStage)
        requires
            place < self.leaves,
        ensures
            stage == opening(self.leaves, place as int),
    {
        if place + 1 == self.leaves {
            WalkStage::OpenPrivate
        } else {
            WalkStage::Open(place)
        }
    }

    fn behind_last(&self) -> (stage: WalkStage)
        ensures
            stage == walked(self.leaves, self.create),
    {
        if self.create {
            WalkStage::Sync(self.leaves)
        } else {
            WalkStage::Found
        }
    }
}

/// The way to the directory of the store comes to an end; and where nothing may be made,
/// nothing is made or made durable.
pub proof fn law_walk_goes_on(walk: ParentWalk, there: bool)
    requires
        walk.sound(),
    ensures
        ({
            let after = next_walk(walk.leaves, walk.create, walk.stage, there);
            &&& walk.stage !is Found && walk.stage !is Absent ==> 0 <= walk_rank(
                walk.leaves,
                after,
            ) < walk_rank(walk.leaves, walk.stage)
            &&& !walk.create ==> after !is Create && after !is Sync
        }),
{
}

/// The directories above the store that are made durable, nearest first, and whether the
/// durable one is among them.
pub struct ParentSync {
    pub ancestors: usize,
    pub reached: bool,
}

/// How many directories above that of the store are made durable: those up to the durable
/// one, which comes last.
pub open spec fn syncs_up_to(ancestors: Seq<Seq<char>>, durable: Seq<char>) -> int
    decreases ancestors.len(),
{
    if ancestors.len() == 0 {
        0
    } else if ancestors[0] == durable {
        1
    } else {
        1 + syncs_up_to(ancestors.skip(1), durable)
    }
}

/// Which directories above that of the store are made durable: none where the directory
/// of the store is the durable one itself. Where the durable one is not above it, the
/// store has failed once all of them are durable.
pub fn ensure_parent(parent: &str, ancestors: &Vec<String>, durable: &str) -> (sync: ParentSync)
    ensures
        ({
            let above = text::texts_view(ancestors@);
            if parent@ == durable@ {
                sync.ancestors == 0 && sync.reached
            } else {
                &&& sync.ancestors == syncs_up_to(above, durable@)
                &&& sync.reached == above.contains(durable@)
            }
        }),
{
    if same_text(parent, durable) {
        return ParentSync { ancestors: 0, reached: true };
    }
    let ghost above = text::texts_view(ancestors@);
    let mut i: usize = 0;
    assert(above.skip(0) =~= above);
    while i < ancestors.len()
        invariant
            i <= ancestors.len(),
            parent@ != durable@,
            above == text::texts_view(ancestors@),
            syncs_up_to(above, durable@) == i + syncs_up_to(above.skip(i as int), durable@),
            forall|k: int| 0 <= k < i ==> above[k] != durable@,
        decreases ancestors.len() - i,
    {
        assert(above.skip(i as int).skip(1) =~= above.skip(i + 1));
        assert(above.skip(i as int)[0] == ancestors@[i as int]@);
        if same_text(ancestors[i].as_str(), durable) {
            assert(above[i as int] == durable@);
            return ParentSync { ancestors: i + 1, reached: true };
        }
        i = i + 1;
    }
    assert(above.skip(i as int).len() == 0);
    assert(!above.contains(durable@));
    ParentSync { ancestors: i, reached: false }
}

/// Directories are made durable from the lowest up to the first that was durable before, it
/// among them, or all of them where none was.
pub proof fn law_new_directories_are_made_durable(
    ancestors: Seq<Seq<char>>,
    durable: Seq<char>,
)
    ensures
        0 <= syncs_up_to(ancestors, durable) <= ancestors.len(),
        forall|k: int|
            0 <= k < syncs_up_to(ancestors, durable) - 1 ==> #[trigger] ancestors[k] != durable,
        ancestors.len() > 0 ==> {
            let count = syncs_up_to(ancestors, durable);
            &&& count > 0
            &&& ancestors[count - 1] == durable || count == ancestors.len()
        },
    decreases ancestors.len(),
{
    if ancestors.len() > 0 && ancestors[0] != durable {
        let rest = ancestors.skip(1);
        law_new_directories_are_made_durable(rest, durable);
        let count = syncs_up_to(ancestors, durable);
        assert forall|k: int| 0 <= k < count - 1 implies #[trigger] ancestors[k] != durable by {
            if k > 0 {
                assert(rest[k - 1] == ancestors[k]);
            }
        }
        if rest.len() > 0 {
            assert(ancestors[count - 1] == rest[count - 2]);
        }
    }
}

/// Every directory on the way to the store is opened in turn, or created where it is missing
/// and may be; the last is opened as a private one. What was created is made durable, from
/// the lowest up.
pub proof fn law_way_to_the_store(leaves: usize, create: bool, place: usize, there: bool)
    requires
        place + 1 < leaves,
    ensures
        next_walk(leaves, create, WalkStage::OpenAnchor, there) == (if leaves == 1 {
            WalkStage::OpenPrivate
        } else {
            WalkStage::Open(0)
        }),
        there ==> next_walk(leaves, create, WalkStage::Open(place), there) == (if place + 2
            == leaves {
            WalkStage::OpenPrivate
        } else {
            WalkStage::Open((place + 1) as usize)
        }),
        there ==> next_walk(leaves, create, WalkStage::Create(place), there) == next_walk(
            leaves,
            create,
            WalkStage::Open(place),
            there,
        ),
        !there ==> next_walk(leaves, create, WalkStage::Open(place), there) == (if create {
            WalkStage::Create(place)
        } else {
            WalkStage::Absent
        }),
        !there ==> next_walk(leaves, create, WalkStage::OpenPrivate, there) is Absent,
        there && create ==> next_walk(leaves, create, WalkStage::OpenPrivate, there)
            == WalkStage::Sync(leaves),
        there && !create ==> next_walk(leaves, create, WalkStage::OpenPrivate, there) is Found,
        next_walk(leaves, create, WalkStage::Sync((place + 1) as usize), there) == WalkStage::Sync(
            place,
        ),
        next_walk(leaves, create, WalkStage::Sync(0), there) is Found,
{
}

} // verus!
