//! The registry of projects that time may be tracked against.

use vstd::prelude::*;

use crate::day::break_name;
use crate::day::break_project;

verus! {

/// The names of the projects, in the order in which they were added; no name twice.
#[derive(Debug)]
pub struct Config {
    pub projects: Vec<String>,
}

/// The texts of a list of names.
pub open spec fn names_view(s: Seq<String>) -> Seq<Seq<char>> {
    s.map_values(|t: String| t@)
}

/// No name occurs twice.
pub open spec fn unique(s: Seq<Seq<char>>) -> bool {
    forall|i: int, j: int| 0 <= i < j < s.len() ==> s[i] != s[j]
}

/// The names without `p`, in their order.
pub open spec fn without(s: Seq<Seq<char>>, p: Seq<char>) -> Seq<Seq<char>>
    decreases s.len(),
{
    if s.len() == 0 {
        s
    } else if s.last() == p {
        without(s.drop_last(), p)
    } else {
        without(s.drop_last(), p).push(s.last())
    }
}

impl Config {
    /// The names of the projects.
    pub open spec fn names(&self) -> Seq<Seq<char>> {
        names_view(self.projects@)
    }

    pub open spec fn wf(&self) -> bool {
        unique(self.names())
    }
}

/// The registry that a user starts with: no projects.
pub fn initial_config() -> (r: Config)
    ensures
        r.names() == Seq::<Seq<char>>::empty(),
        r.wf(),
{
    let r = Config { projects: Vec::new() };
    assert(r.names() =~= Seq::<Seq<char>>::empty());
    r
}

/// Whether `project` is registered.
pub fn is_configured(config: &Config, project: &String) -> (r: bool)
    ensures
        r == config.names().contains(project@),
{
    let ghost v = config.names();
    let mut i: usize = 0;
    while i < config.projects.len()
        invariant
            i <= config.projects@.len(),
            v == config.names(),
            forall|k: int| 0 <= k < i ==> v[k] != project@,
        decreases config.projects@.len() - i,
    {
        if config.projects[i] == *project {
            assert(v[i as int] == project@);
            return true;
        }
        i = i + 1;
    }
    false
}

/// Registers `project`; a name that is registered already stays where it is. The name
/// `"break"` is valid without being registered and is never stored.
pub fn add_project(config: &mut Config, project: String)
    ensures
        old(config).wf() ==> final(config).wf(),
        project@ == break_name() ==> final(config).names() == old(config).names(),
        project@ != break_name() && old(config).names().contains(project@)
            ==> final(config).names() == old(config).names(),
        project@ != break_name() && !old(config).names().contains(project@)
            ==> final(config).names() == old(config).names().push(project@),
{
    let breaks = break_project();
    if !(project == breaks) && !is_configured(config, &project) {
        let ghost before = config.names();
        config.projects.push(project);
        assert(config.names() =~= before.push(project@));
        assert(config.names()[before.len() as int] == project@);
    }
}

proof fn lemma_without_keeps(s: Seq<Seq<char>>, p: Seq<char>)
    ensures
        unique(s) ==> unique(without(s, p)),
        forall|x: Seq<char>| #[trigger] without(s, p).contains(x) ==> s.contains(x) && x != p,
    decreases s.len(),
{
    if s.len() > 0 {
        lemma_without_keeps(s.drop_last(), p);
        let w = without(s.drop_last(), p);
        assert forall|x: Seq<char>| #[trigger] without(s, p).contains(x) implies s.contains(x)
            && x != p by {
            if w.contains(x) {
                let k = choose|k: int| 0 <= k < w.len() && w[k] == x;
                assert(s.drop_last().contains(x));
                let j = choose|j: int| 0 <= j < s.drop_last().len() && s.drop_last()[j] == x;
                assert(s[j] == x);
            } else {
                assert(x == s.last());
            }
        }
        if unique(s) && s.last() != p {
            assert(unique(s.drop_last()));
            assert forall|i: int, j: int|
                0 <= i < j < without(s, p).len() implies without(s, p)[i] != without(
                s,
                p,
            )[j] by {
                if j == w.len() {
                    assert(w.contains(w[i]));
                    assert(s.drop_last().contains(w[i]));
                }
            }
        } else if unique(s) {
            assert(unique(s.drop_last()));
        }
    }
}

/// Removes `project` from the registry; the other names keep their order.
pub fn delete_project(config: &mut Config, project: &String)
    ensures
        old(config).wf() ==> final(config).wf(),
        final(config).names() == without(old(config).names(), project@),
{
    let ghost v = config.names();
    let mut kept: Vec<String> = Vec::new();
    let mut i: usize = 0;
    assert(v.take(0) =~= Seq::<Seq<char>>::empty());
    while i < config.projects.len()
        invariant
            i <= config.projects@.len(),
            v == config.names(),
            names_view(kept@) == without(v.take(i as int), project@),
        decreases config.projects@.len() - i,
    {
        proof {
            assert(v.take(i + 1).drop_last() =~= v.take(i as int));
            assert(v.take(i + 1).last() == config.projects@[i as int]@);
        }
        if !(config.projects[i] == *project) {
            kept.push(config.projects[i].clone());
            assert(names_view(kept@) =~= without(v.take(i + 1), project@));
        }
        i = i + 1;
    }
    assert(v.take(i as int) =~= v);
    config.projects = kept;
    proof {
        lemma_without_keeps(v, project@);
    }
}

} // verus!
