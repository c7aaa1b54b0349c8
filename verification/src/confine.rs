//! Keeping a resolved path inside the picked folder where symbolic links could lead out of it.
//!
//! The text of a path does not show where its links lead. So the deepest part of the path that
//! exists is resolved for real, and has to lie inside the real picked folder. A path that is yet
//! to be created is judged by the folder it will be created in. A link whose target is missing is
//! there all the same: it is judged by the place that it names.

use vstd::prelude::*;

use crate::fsio::{
    answers, link_view, outcome_view, stringify, Fault, FsRequest, OsFault, OsReply, OsRequest,
    Reply, Request,
};
use crate::path::{components, components_form_a_path, parent_of, FsPath, Part, Path};
use crate::resolve::{
    is_name, refusal, refuse, resolve_within, text_within, utf8, within, within_text,
};
use crate::text::{shown, text_from_utf8_lossy};

verus! {

/// How many links with missing targets are followed before a path is refused.
pub const LINK_LIMIT: u32 = 40;

/// How far the judgement has come.
pub enum ConfineStage<P> {
    /// The real picked folder is not known yet.
    FindRoot,
    /// The real path of `probe` is needed: `probe` is `target`, or the place that a link on it
    /// names, or the closest folder above one of these that is not known to be missing. `hops` is
    /// how many more links may be followed.
    Probe { canon_root: P, probe: P, hops: u32 },
    /// Nothing was found at `probe`. Whether a link is there, which leads to something missing, is
    /// needed.
    Look { canon_root: P, probe: P, hops: u32 },
}

/// The judgement of one path.
pub struct Confinement<P, B> {
    pub root: P,
    pub target: P,
    /// The path as a refusal shows it.
    pub text: B,
    pub stage: ConfineStage<P>,
}

/// What one answer leads to.
pub enum ConfineStep<P, B, S> {
    /// Another answer is needed.
    More(Confinement<P, B>),
    /// The path stays inside.
    Inside,
    /// It is refused, or it could not be judged.
    Refused(S),
}

/// A judgement in contracts.
pub type Judging = Confinement<Path, Seq<u8>>;

/// A step in contracts.
pub type Judged = ConfineStep<Path, Seq<u8>, Seq<char>>;

impl View for Confinement<FsPath, Vec<u8>> {
    type V = Judging;

    open spec fn view(&self) -> Judging {
        Confinement {
            root: self.root@,
            target: self.target@,
            text: self.text@,
            stage: match self.stage {
                ConfineStage::FindRoot => ConfineStage::FindRoot,
                ConfineStage::Probe { canon_root, probe, hops } => ConfineStage::Probe {
                    canon_root: canon_root@,
                    probe: probe@,
                    hops,
                },
                ConfineStage::Look { canon_root, probe, hops } => ConfineStage::Look {
                    canon_root: canon_root@,
                    probe: probe@,
                    hops,
                },
            },
        }
    }
}

impl View for ConfineStep<FsPath, Vec<u8>, String> {
    type V = Judged;

    open spec fn view(&self) -> Judged {
        match self {
            ConfineStep::More(next) => ConfineStep::More(next@),
            ConfineStep::Inside => ConfineStep::Inside,
            ConfineStep::Refused(message) => ConfineStep::Refused(message@),
        }
    }
}

/// The judgement of `name` in `dir`, at its beginning.
pub open spec fn confining(dir: Seq<char>, name: Seq<char>) -> Judging {
    Confinement {
        root: components(utf8(dir)),
        target: within(components(utf8(dir)), components(utf8(name))),
        text: within_text(utf8(dir), components(utf8(name))),
        stage: ConfineStage::FindRoot,
    }
}

/// The path that an answer is needed for next.
pub open spec fn probed(c: Judging) -> Path {
    match c.stage {
        ConfineStage::FindRoot => c.root,
        ConfineStage::Probe { probe, .. } => probe,
        ConfineStage::Look { probe, .. } => probe,
    }
}

/// The operation whose answer is needed next.
pub open spec fn confine_request(c: Judging) -> Request {
    match c.stage {
        ConfineStage::Look { probe, .. } => FsRequest::ReadLink(probe),
        _ => FsRequest::Canonicalize(probed(c)),
    }
}

/// The place that the link at `link` names by the path `to`: a path from the root, or one from the
/// folder that holds the link.
pub open spec fn led(link: Path, to: Path) -> Path {
    if to.len() > 0 && to[0] is Root {
        to
    } else {
        let folder = match parent_of(link) {
            Some(folder) => folder,
            None => Seq::empty(),
        };
        if to.len() > 0 && to[0] is Here {
            folder + to.drop_first()
        } else {
            folder + to
        }
    }
}

/// The refusal of the path that is judged.
pub open spec fn refused(c: Judging) -> Judged {
    ConfineStep::Refused(refusal(shown(c.text)))
}

/// What comes where there is no entry at `probe`: the folder above it decides. A `..` behind
/// something missing cannot be judged, and neither can a link that leads nowhere at all.
pub open spec fn climbed(c: Judging, canon_root: Path, probe: Path, hops: u32) -> Judged {
    match parent_of(probe) {
        Some(up) => if probe.last() is Up {
            refused(c)
        } else {
            ConfineStep::More(
                Confinement { stage: ConfineStage::Probe { canon_root, probe: up, hops }, ..c },
            )
        },
        None => if hops == LINK_LIMIT {
            ConfineStep::Inside
        } else {
            refused(c)
        },
    }
}

/// What an answer leads to. The real picked folder comes first. Then the path is inside if its
/// real path is. Where nothing is found, a link that is there is followed to the place that it
/// names, and where there is none the folder above decides.
pub open spec fn judge(c: Judging, reply: Reply) -> Judged {
    match (c.stage, reply) {
        (ConfineStage::FindRoot, Reply::Canonical(Ok(canon_root))) => ConfineStep::More(
            Confinement {
                stage: ConfineStage::Probe { canon_root, probe: c.target, hops: LINK_LIMIT },
                ..c
            },
        ),
        (ConfineStage::Probe { canon_root, .. }, Reply::Canonical(Ok(found))) => if canon_root.is_prefix_of(
            found,
        ) {
            ConfineStep::Inside
        } else {
            refused(c)
        },
        (ConfineStage::Probe { canon_root, probe, hops }, Reply::Canonical(Err(fault))) => if fault.not_found {
            ConfineStep::More(
                Confinement { stage: ConfineStage::Look { canon_root, probe, hops }, ..c },
            )
        } else {
            ConfineStep::Refused(fault.text)
        },
        (ConfineStage::Look { canon_root, probe, hops }, Reply::Link(Ok(Some(to)))) => if hops == 0 {
            refused(c)
        } else {
            ConfineStep::More(
                Confinement {
                    stage: ConfineStage::Probe {
                        canon_root,
                        probe: led(probe, to),
                        hops: (hops - 1) as u32,
                    },
                    ..c
                },
            )
        },
        (ConfineStage::Look { canon_root, probe, hops }, Reply::Link(Ok(None))) => climbed(
            c,
            canon_root,
            probe,
            hops,
        ),
        (ConfineStage::Look { canon_root, probe, hops }, Reply::Link(Err(fault))) => if fault.not_found {
            climbed(c, canon_root, probe, hops)
        } else {
            ConfineStep::Refused(fault.text)
        },
        (_, Reply::Canonical(Err(fault))) => ConfineStep::Refused(fault.text),
        _ => ConfineStep::Refused(Seq::empty()),
    }
}

/// Begins to judge `name` in `dir`; refuses at once a name whose text leads out.
pub fn confine_to_root(dir: &str, name: &str) -> (res: Result<
    Confinement<FsPath, Vec<u8>>,
    String,
>)
    ensures
        match res {
            Ok(c) => {
                &&& !crate::resolve::escapes(components(utf8(name@)))
                &&& c@ == confining(dir@, name@)
            },
            Err(message) => {
                &&& crate::resolve::escapes(components(utf8(name@)))
                &&& message@ == refusal(name@)
            },
        },
{
    match resolve_within(dir, name) {
        Ok(target) => Ok(
            Confinement {
                root: FsPath::parse(dir.as_bytes()),
                target,
                text: text_within(dir, name),
                stage: ConfineStage::FindRoot,
            },
        ),
        Err(message) => Err(message),
    }
}

/// The place that the link at `link` names by the path `to`.
fn follow(link: &FsPath, to: FsPath) -> (res: FsPath)
    ensures
        res@ == led(link@, to@),
{
    let mut from: usize = 0;
    if to.parts.len() > 0 {
        assert(to@[0] == to.parts@[0]@);
        match to.parts[0] {
            Part::Root => {
                return to;
            },
            Part::Here => {
                from = 1;
            },
            _ => {},
        }
    }
    let mut res = match link.parent() {
        Some(folder) => folder,
        None => FsPath { parts: Vec::new() },
    };
    let ghost base = match parent_of(link@) {
        Some(folder) => folder,
        None => Seq::empty(),
    };
    assert(res@ =~= base);
    let mut i: usize = from;
    assert(to@.subrange(from as int, from as int) =~= Seq::empty());
    while i < to.parts.len()
        invariant
            from <= i <= to.parts@.len(),
            res@ == base + to@.subrange(from as int, i as int),
        decreases to.parts@.len() - i,
    {
        let ghost before = res@;
        let part = to.parts[i].clone();
        res.parts.push(part);
        assert(res@ =~= before.push(to@[i as int]));
        assert(to@.subrange(from as int, i + 1) =~= to@.subrange(from as int, i as int).push(
            to@[i as int],
        ));
        i = i + 1;
    }
    proof {
        assert(to@.subrange(0, to@.len() as int) =~= to@);
        if to@.len() > 0 {
            assert(to@.subrange(1, to@.len() as int) =~= to@.drop_first());
        }
    }
    res
}

impl Confinement<FsPath, Vec<u8>> {
    /// The operation whose answer is needed next.
    pub fn request(&self) -> (res: OsRequest)
        ensures
            res@ == confine_request(self@),
    {
        match &self.stage {
            ConfineStage::FindRoot => FsRequest::Canonicalize(self.root.clone()),
            ConfineStage::Probe { probe, .. } => FsRequest::Canonicalize(probe.clone()),
            ConfineStage::Look { probe, .. } => FsRequest::ReadLink(probe.clone()),
        }
    }

    fn at(self, stage: ConfineStage<FsPath>) -> (res: Self)
        ensures
            res == (Confinement { stage, ..self }),
    {
        Confinement { root: self.root, target: self.target, text: self.text, stage }
    }

    fn refuse(self) -> (res: ConfineStep<FsPath, Vec<u8>, String>)
        ensures
            res@ == refused(self@),
    {
        ConfineStep::Refused(refuse(text_from_utf8_lossy(&self.text).as_str()))
    }

    fn climb(self, canon_root: FsPath, probe: FsPath, hops: u32) -> (res: ConfineStep<
        FsPath,
        Vec<u8>,
        String,
    >)
        ensures
            res@ == climbed(self@, canon_root@, probe@, hops),
    {
        match probe.parent() {
            Some(up) => {
                let n: usize = probe.parts.len();
                assert(probe@.last() == probe.parts@[n - 1]@);
                match probe.parts[n - 1] {
                    Part::Up => self.refuse(),
                    _ => ConfineStep::More(
                        self.at(ConfineStage::Probe { canon_root, probe: up, hops }),
                    ),
                }
            },
            None => if hops == LINK_LIMIT {
                ConfineStep::Inside
            } else {
                self.refuse()
            },
        }
    }

    fn on_canonical(self, answer: Result<FsPath, OsFault>) -> (res: ConfineStep<
        FsPath,
        Vec<u8>,
        String,
    >)
        requires
            confine_request(self@) is Canonicalize,
        ensures
            res@ == judge(self@, Reply::Canonical(outcome_view(answer))),
    {
        let fault = match answer {
            Ok(found) => {
                return match &self.stage {
                    ConfineStage::Probe { canon_root, .. } => {
                        if found.starts_with(canon_root) {
                            ConfineStep::Inside
                        } else {
                            self.refuse()
                        }
                    },
                    _ => {
                        let probe = self.target.clone();
                        let stage = ConfineStage::Probe {
                            canon_root: found,
                            probe,
                            hops: LINK_LIMIT,
                        };
                        ConfineStep::More(self.at(stage))
                    },
                };
            },
            Err(fault) => fault,
        };
        match &self.stage {
            ConfineStage::Probe { canon_root, probe, hops } => {
                if fault.not_found {
                    let stage = ConfineStage::Look {
                        canon_root: canon_root.clone(),
                        probe: probe.clone(),
                        hops: *hops,
                    };
                    ConfineStep::More(self.at(stage))
                } else {
                    ConfineStep::Refused(stringify(fault))
                }
            },
            _ => ConfineStep::Refused(stringify(fault)),
        }
    }

    fn on_link(
        self,
        canon_root: FsPath,
        probe: FsPath,
        hops: u32,
        answer: Result<Option<FsPath>, OsFault>,
    ) -> (res: ConfineStep<FsPath, Vec<u8>, String>)
        requires
            self@.stage == (ConfineStage::Look {
                canon_root: canon_root@,
                probe: probe@,
                hops,
            }),
        ensures
            res@ == judge(self@, Reply::Link(link_view(answer))),
    {
        match answer {
            Ok(Some(to)) => if hops == 0 {
                self.refuse()
            } else {
                let probe = follow(&probe, to);
                ConfineStep::More(
                    self.at(ConfineStage::Probe { canon_root, probe, hops: hops - 1 }),
                )
            },
            Ok(None) => self.climb(canon_root, probe, hops),
            Err(fault) => if fault.not_found {
                self.climb(canon_root, probe, hops)
            } else {
                ConfineStep::Refused(stringify(fault))
            },
        }
    }

    /// Goes on with the answer.
    pub fn step(self, reply: OsReply) -> (res: ConfineStep<FsPath, Vec<u8>, String>)
        requires
            answers(confine_request(self@), reply@),
        ensures
            res@ == judge(self@, reply@),
    {
        match reply {
            OsReply::Canonical(answer) => self.on_canonical(answer),
            OsReply::Link(answer) => {
                let looked = match &self.stage {
                    ConfineStage::Look { canon_root, probe, hops } => Some(
                        (canon_root.clone(), probe.clone(), *hops),
                    ),
                    _ => None,
                };
                match looked {
                    Some((canon_root, probe, hops)) => self.on_link(
                        canon_root,
                        probe,
                        hops,
                        answer,
                    ),
                    None => self.refuse(),
                }
            },
            _ => self.refuse(),
        }
    }
}

/// The real path of every entry, or why there is none: what a file system that stands still
/// answers.
pub type RealPaths = spec_fn(Path) -> Result<Path, Fault>;

/// What every link of such a file system holds.
pub type Links = spec_fn(Path) -> Result<Option<Path>, Fault>;

/// What such a file system answers next.
pub open spec fn still_answer(c: Judging, canon: RealPaths, links: Links) -> Reply {
    match c.stage {
        ConfineStage::Look { probe, .. } => Reply::Link(links(probe)),
        _ => Reply::Canonical(canon(probed(c))),
    }
}

/// How many links may still be followed; one more while the picked folder is not known yet.
pub open spec fn hops_left(c: Judging) -> nat {
    match c.stage {
        ConfineStage::FindRoot => (LINK_LIMIT + 1) as nat,
        ConfineStage::Probe { hops, .. } => hops as nat,
        ConfineStage::Look { hops, .. } => hops as nat,
    }
}

/// Where a judgement ends if every answer is the one that `canon` and `links` give.
pub open spec fn judged_by(c: Judging, canon: RealPaths, links: Links) -> Judged
    decreases
            hops_left(c),
            probed(c).len(),
            if c.stage is Look {
                0nat
            } else {
                1nat
            },
{
    match judge(c, still_answer(c, canon, links)) {
        ConfineStep::More(next) => judged_by(next, canon, links),
        end => end,
    }
}

/// Whether there is no entry at `path`, and no link either whose target is missing.
pub open spec fn is_absent(canon: RealPaths, links: Links, path: Path) -> bool {
    &&& canon(path) matches Err(fault) && fault.not_found
    &&& match links(path) {
        Ok(to) => to is None,
        Err(fault) => fault.not_found,
    }
}

/// The length of the topmost path above `path`.
pub open spec fn topmost(path: Path) -> int {
    if path.len() > 0 && path[0] is Root {
        1
    } else {
        0
    }
}

/// Whether the root is nowhere but in front.
pub open spec fn is_rooted(path: Path) -> bool {
    forall|i: int| 0 < i < path.len() ==> !(#[trigger] path[i] is Root)
}

/// Whether the first `j` parts of `path` lead to nothing, and the last of them can be left off.
pub open spec fn is_cut(canon: RealPaths, links: Links, path: Path, j: int) -> bool {
    is_absent(canon, links, path.take(j)) && !(path[j - 1] is Up)
}

/// Whether the first `k` parts of `path` lead to the deepest entry on it, a link whose target is
/// missing counted as one.
pub open spec fn is_deepest(canon: RealPaths, links: Links, path: Path, k: int) -> bool {
    &&& topmost(path) <= k <= path.len()
    &&& !is_absent(canon, links, path.take(k))
    &&& forall|j: int| k < j <= path.len() ==> #[trigger] is_cut(canon, links, path, j)
}

/// Whether nothing on `path` exists.
pub open spec fn is_all_absent(canon: RealPaths, links: Links, path: Path) -> bool {
    &&& is_absent(canon, links, path.take(topmost(path)))
    &&& forall|j: int| topmost(path) < j <= path.len() ==> #[trigger] is_cut(canon, links, path, j)
}

/// Whether the place that `path` names lies inside the folder `canon_root`: the deepest entry on
/// the path does, by its real path or, where it is a link to something missing, by the place that
/// the link names.
pub open spec fn lands_inside(
    canon: RealPaths,
    links: Links,
    canon_root: Path,
    path: Path,
    hops: u32,
) -> bool
    decreases hops, 1nat,
{
    exists|k: int| #[trigger]
        is_deepest(canon, links, path, k) && entry_is_inside(
            canon,
            links,
            canon_root,
            path.take(k),
            hops,
        )
}

/// Whether the entry at `path` lies inside the folder `canon_root`.
pub open spec fn entry_is_inside(
    canon: RealPaths,
    links: Links,
    canon_root: Path,
    path: Path,
    hops: u32,
) -> bool
    decreases hops, 0nat,
{
    match (canon(path), links(path)) {
        (Ok(found), _) => canon_root.is_prefix_of(found),
        (Err(fault), Ok(Some(to))) => fault.not_found && hops > 0 && lands_inside(
            canon,
            links,
            canon_root,
            led(path, to),
            (hops - 1) as u32,
        ),
        _ => false,
    }
}

/// Whether every link holds a path that has the root nowhere but in front.
pub open spec fn links_are_rooted(links: Links) -> bool {
    forall|p: Path| #[trigger] links(p) matches Ok(Some(to)) ==> is_rooted(to)
}

proof fn led_is_rooted(link: Path, to: Path)
    requires
        is_rooted(link),
        is_rooted(to),
    ensures
        is_rooted(led(link, to)),
{
    let all = led(link, to);
    assert forall|i: int| 0 < i < all.len() implies !(#[trigger] all[i] is Root) by {
        if !(to.len() > 0 && to[0] is Root) {
            if let Some(folder) = parent_of(link) {
                if i < folder.len() {
                    assert(all[i] == link[i]);
                }
            }
        }
    }
}

proof fn deepest_is_one(canon: RealPaths, links: Links, path: Path, a: int, b: int)
    requires
        is_deepest(canon, links, path, a),
        is_deepest(canon, links, path, b),
    ensures
        a == b,
{
    if a < b {
        assert(is_cut(canon, links, path, b));
    }
    if b < a {
        assert(is_cut(canon, links, path, a));
    }
}

/// On a file system that stands still a path is let through exactly if the real picked folder is
/// known and the place that the path names lies inside it (or nothing on the path exists). The
/// deepest entry on the path decides: a note that is yet to be created is judged by the folder that
/// will hold it, and a link by where it leads, whether or not something is there.
pub proof fn confinement_follows_the_deepest_entry(c: Judging, canon: RealPaths, links: Links)
    requires
        c.stage is FindRoot,
        is_rooted(c.target),
        links_are_rooted(links),
    ensures
        judged_by(c, canon, links) is Inside <==> (canon(c.root) matches Ok(canon_root) && (
        lands_inside(canon, links, canon_root, c.target, LINK_LIMIT) || is_all_absent(
            canon,
            links,
            c.target,
        ))),
        !(judged_by(c, canon, links) is Inside) ==> judged_by(c, canon, links) is Refused,
{
    judging_ends(c, canon, links);
    if let Ok(canon_root) = canon(c.root) {
        let next = Confinement {
            stage: ConfineStage::Probe { canon_root, probe: c.target, hops: LINK_LIMIT },
            ..c
        };
        assert(judge(c, still_answer(c, canon, links)) == Judged::More(next));
        assert(c.target.take(c.target.len() as int) == c.target);
        probing_follows_the_deepest_entry(next, canon, links, c.target, c.target.len() as int);
    }
}

proof fn judging_ends(c: Judging, canon: RealPaths, links: Links)
    ensures
        judged_by(c, canon, links) is Inside || judged_by(c, canon, links) is Refused,
    decreases
            hops_left(c),
            probed(c).len(),
            if c.stage is Look {
                0nat
            } else {
                1nat
            },
{
    if let ConfineStep::More(next) = judge(c, still_answer(c, canon, links)) {
        judging_ends(next, canon, links);
    }
}

proof fn probing_follows_the_deepest_entry(
    c: Judging,
    canon: RealPaths,
    links: Links,
    path: Path,
    n: int,
)
    requires
        is_rooted(path),
        links_are_rooted(links),
        topmost(path) <= n <= path.len(),
        c.stage matches ConfineStage::Probe { probe, hops, .. } && probe == path.take(n) && hops
            <= LINK_LIMIT,
        forall|j: int| n < j <= path.len() ==> #[trigger] is_cut(canon, links, path, j),
    ensures
        c.stage matches ConfineStage::Probe { canon_root, hops, .. } && (judged_by(
            c,
            canon,
            links,
        ) is Inside <==> (lands_inside(canon, links, canon_root, path, hops) || (hops == LINK_LIMIT
            && is_all_absent(canon, links, path)))),
    decreases hops_left(c), n,
{
    if let ConfineStage::Probe { canon_root, probe, hops } = c.stage {
        let look = Confinement {
            stage: ConfineStage::Look { canon_root, probe, hops },
            ..c
        };
        if is_absent(canon, links, probe) {
            assert(judge(c, still_answer(c, canon, links)) == Judged::More(look));
            assert(judged_by(c, canon, links) == judged_by(look, canon, links));
            assert(judge(look, still_answer(look, canon, links)) == climbed(
                look,
                canon_root,
                probe,
                hops,
            ));
            assert forall|k: int| is_deepest(canon, links, path, k) implies k < n by {
                if n < k {
                    assert(is_cut(canon, links, path, k));
                }
            }
            if n == topmost(path) {
                assert(parent_of(probe) is None) by {
                    if n == 1 {
                        assert(probe.last() == path[0]);
                    }
                }
                assert(is_all_absent(canon, links, path));
                assert(!lands_inside(canon, links, canon_root, path, hops));
            } else {
                assert(probe.last() == path[n - 1]);
                assert(!(path[n - 1] is Root));
                assert(probe.drop_last() =~= path.take(n - 1));
                if path[n - 1] is Up {
                    assert(!is_cut(canon, links, path, n));
                    assert(!lands_inside(canon, links, canon_root, path, hops)) by {
                        if lands_inside(canon, links, canon_root, path, hops) {
                            let k = choose|k: int| #[trigger]
                                is_deepest(canon, links, path, k) && entry_is_inside(
                                    canon,
                                    links,
                                    canon_root,
                                    path.take(k),
                                    hops,
                                );
                            assert(is_cut(canon, links, path, n));
                        }
                    }
                } else {
                    let next = Confinement {
                        stage: ConfineStage::Probe { canon_root, probe: path.take(n - 1), hops },
                        ..look
                    };
                    assert(is_cut(canon, links, path, n));
                    assert(judged_by(look, canon, links) == judged_by(next, canon, links));
                    probing_follows_the_deepest_entry(next, canon, links, path, n - 1);
                }
            }
        } else {
            assert(is_deepest(canon, links, path, n));
            assert(!is_all_absent(canon, links, path)) by {
                if is_all_absent(canon, links, path) && n > topmost(path) {
                    assert(is_cut(canon, links, path, n));
                }
            }
            assert forall|k: int| is_deepest(canon, links, path, k) implies k == n by {
                deepest_is_one(canon, links, path, k, n);
            }
            assert(lands_inside(canon, links, canon_root, path, hops) <==> entry_is_inside(
                canon,
                links,
                canon_root,
                probe,
                hops,
            ));
            if canon(probe) matches Err(fault) && fault.not_found {
                assert(judge(c, still_answer(c, canon, links)) == Judged::More(look));
                assert(judged_by(c, canon, links) == judged_by(look, canon, links));
                if let Ok(Some(to)) = links(probe) {
                    if hops > 0 {
                        let out = led(probe, to);
                        let next = Confinement {
                            stage: ConfineStage::Probe {
                                canon_root,
                                probe: out,
                                hops: (hops - 1) as u32,
                            },
                            ..look
                        };
                        assert(judge(look, still_answer(look, canon, links)) == Judged::More(next));
                        assert(judged_by(look, canon, links) == judged_by(next, canon, links));
                        assert(is_rooted(probe));
                        led_is_rooted(probe, to);
                        assert(out.take(out.len() as int) == out);
                        probing_follows_the_deepest_entry(
                            next,
                            canon,
                            links,
                            out,
                            out.len() as int,
                        );
                    }
                }
            }
        }
    }
}

/// A link on a path, below which the path names nothing that exists, lets nothing through if it
/// leads out of the picked folder: by its real path or, where its target is missing, by the place
/// that it names.
pub proof fn a_link_that_leads_out_lets_nothing_through(
    c: Judging,
    canon: RealPaths,
    links: Links,
    canon_root: Path,
    k: int,
    to: Path,
)
    requires
        c.stage is FindRoot,
        is_rooted(c.target),
        links_are_rooted(links),
        canon(c.root) == Ok::<Path, Fault>(canon_root),
        topmost(c.target) <= k <= c.target.len(),
        links(c.target.take(k)) == Ok::<Option<Path>, Fault>(Some(to)),
        forall|j: int|
            k < j <= c.target.len() ==> is_absent(canon, links, #[trigger] c.target.take(j)),
        match canon(c.target.take(k)) {
            Ok(found) => !canon_root.is_prefix_of(found),
            Err(fault) => fault.not_found ==> !lands_inside(
                canon,
                links,
                canon_root,
                led(c.target.take(k), to),
                (LINK_LIMIT - 1) as u32,
            ),
        },
    ensures
        judged_by(c, canon, links) is Refused,
{
    let target = c.target;
    confinement_follows_the_deepest_entry(c, canon, links);
    assert(!is_absent(canon, links, target.take(k)));
    assert forall|j: int| is_deepest(canon, links, target, j) implies j == k by {
        if j < k {
            assert(is_cut(canon, links, target, k));
        }
    }
    if is_all_absent(canon, links, target) && k > topmost(target) {
        assert(is_cut(canon, links, target, k));
    }
}

/// A link with a missing target is refused where the deepest entry on the place that it names lies
/// outside the picked folder.
pub proof fn a_dangling_link_out_of_the_folder_is_refused(
    c: Judging,
    canon: RealPaths,
    links: Links,
    canon_root: Path,
    k: int,
    to: Path,
    m: int,
    found: Path,
)
    requires
        c.stage is FindRoot,
        is_rooted(c.target),
        links_are_rooted(links),
        canon(c.root) == Ok::<Path, Fault>(canon_root),
        topmost(c.target) <= k <= c.target.len(),
        canon(c.target.take(k)) matches Err(fault) && fault.not_found,
        links(c.target.take(k)) == Ok::<Option<Path>, Fault>(Some(to)),
        forall|j: int|
            k < j <= c.target.len() ==> is_absent(canon, links, #[trigger] c.target.take(j)),
        is_deepest(canon, links, led(c.target.take(k), to), m),
        canon(led(c.target.take(k), to).take(m)) == Ok::<Path, Fault>(found),
        !canon_root.is_prefix_of(found),
    ensures
        judged_by(c, canon, links) is Refused,
{
    let out = led(c.target.take(k), to);
    assert forall|j: int| is_deepest(canon, links, out, j) implies j == m by {
        deepest_is_one(canon, links, out, j, m);
    }
    a_link_that_leads_out_lets_nothing_through(c, canon, links, canon_root, k, to);
}

/// A path that is judged, and every path that is read from a text, has the root nowhere but in
/// front.
pub proof fn a_judged_path_is_rooted(dir: Seq<char>, name: Seq<char>, text: Seq<u8>)
    ensures
        is_rooted(confining(dir, name).target),
        is_rooted(components(text)),
{
    components_form_a_path(utf8(dir));
    components_form_a_path(text);
    let root = components(utf8(dir));
    let rel = components(utf8(name));
    let pred = |part: Part<Seq<u8>>| is_name(part);
    let names = rel.filter(pred);
    let target = confining(dir, name).target;
    assert(target == root + names);
    assert forall|i: int| 0 < i < target.len() implies !(#[trigger] target[i] is Root) by {
        if i < root.len() {
            assert(target[i] == root[i]);
        } else {
            rel.lemma_filter_pred(pred, i - root.len());
            assert(target[i] == names[i - root.len()]);
        }
    }
}

} // verus!
