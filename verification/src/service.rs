//! The namespace scope of one service instance.
//!
//! A service is authorized for a fixed list of namespaces, chosen when it is
//! made. The list holds every namespace once, in the order of first request,
//! and no namespace holds the route separator, so each one names a
//! two-segment notification topic.

use vstd::prelude::*;
use crate::channel_name::{
    build_channel_route, contains_separator, has_separator, route_text, segment_views,
    separator_free,
};
use crate::text::same_text;

verus! {

/// The first segment of every topic that announces ready tasks.
pub const READY_TOPIC: &'static str = "task_ready";

/// The character views of a list of owned strings.
pub open spec fn name_views(names: Seq<String>) -> Seq<Seq<char>> {
    Seq::new(names.len(), |i: int| names[i]@)
}

/// The names of a list, each kept where it first occurs.
pub open spec fn first_occurrences(names: Seq<Seq<char>>) -> Seq<Seq<char>>
    decreases names.len(),
{
    if names.len() == 0 {
        Seq::empty()
    } else {
        let kept = first_occurrences(names.drop_last());
        if kept.contains(names.last()) {
            kept
        } else {
            kept.push(names.last())
        }
    }
}

/// The topic on which ready tasks of `namespace` are announced.
pub open spec fn ready_channel(namespace: Seq<char>) -> Seq<char> {
    route_text(seq![READY_TOPIC@, namespace])
}

/// Keeping first occurrences drops nothing and adds nothing: the result has
/// the members of the list, each once.
pub proof fn lemma_first_occurrences(names: Seq<Seq<char>>)
    ensures
        first_occurrences(names).no_duplicates(),
        forall|name: Seq<char>|
            first_occurrences(names).contains(name) <==> names.contains(name),
    decreases names.len(),
{
    if names.len() > 0 {
        let init = names.drop_last();
        let kept = first_occurrences(init);
        let all = first_occurrences(names);
        lemma_first_occurrences(init);
        assert forall|name: Seq<char>| all.contains(name) <==> names.contains(name) by {
            if names.contains(name) {
                let i = choose|i: int| 0 <= i < names.len() && names[i] == name;
                if i < init.len() {
                    assert(init[i] == name);
                    assert(init.contains(name));
                    assert(kept.contains(name));
                    let k = choose|k: int| 0 <= k < kept.len() && kept[k] == name;
                    assert(all[k] == name);
                } else if !kept.contains(names.last()) {
                    assert(all[kept.len() as int] == name);
                }
            }
            if all.contains(name) {
                let k = choose|k: int| 0 <= k < all.len() && all[k] == name;
                if k < kept.len() {
                    assert(kept[k] == name);
                    assert(init.contains(name));
                    let i = choose|i: int| 0 <= i < init.len() && init[i] == name;
                    assert(names[i] == name);
                } else {
                    assert(names[names.len() - 1] == name);
                }
            }
        }
    }
}

/// A requested namespace holds the route separator and so names no topic.
#[derive(Clone, Copy, Debug, PartialEq, Eq, Structural)]
pub struct InvalidNamespace {
    /// Where the first such namespace stands in the requested list.
    pub index: usize,
}

/// The namespaces that one service instance may observe and mutate.
pub struct DbService {
    namespaces: Vec<String>,
}

impl View for DbService {
    type V = Seq<Seq<char>>;

    closed spec fn view(&self) -> Seq<Seq<char>> {
        name_views(self.namespaces@)
    }
}

impl DbService {
    #[verifier::type_invariant]
    spec fn scoped(self) -> bool {
        &&& self@.no_duplicates()
        &&& separator_free(self@)
    }

    /// Scopes a service to the requested namespaces. Repeated requests for
    /// one namespace count once. A namespace that holds the separator is
    /// refused, and the first such is reported.
    pub fn new(requested: Vec<String>) -> (made: Result<DbService, InvalidNamespace>)
        ensures
            made is Ok <==> separator_free(name_views(requested@)),
            made matches Ok(service) ==> {
                &&& service@ == first_occurrences(name_views(requested@))
                &&& service@.no_duplicates()
                &&& separator_free(service@)
            },
            made matches Err(refused) ==> {
                &&& refused.index < requested@.len()
                &&& has_separator(requested@[refused.index as int]@)
                &&& forall|k: int|
                    0 <= k < refused.index ==> !has_separator(#[trigger] requested@[k]@)
            },
    {
        let ghost wanted = name_views(requested@);
        let mut namespaces: Vec<String> = Vec::new();
        let mut i: usize = 0;
        assert(wanted.take(0) =~= Seq::<Seq<char>>::empty());
        while i < requested.len()
            invariant
                i <= requested@.len(),
                wanted == name_views(requested@),
                name_views(namespaces@) == first_occurrences(wanted.take(i as int)),
                forall|k: int| 0 <= k < i ==> !has_separator(#[trigger] requested@[k]@),
            decreases requested@.len() - i,
        {
            let name = requested[i].as_str();
            if contains_separator(name) {
                assert(has_separator(wanted[i as int]));
                return Err(InvalidNamespace { index: i });
            }
            let known = find_name(&namespaces, name);
            proof {
                assert(wanted.take(i + 1).drop_last() =~= wanted.take(i as int));
                assert(wanted.take(i + 1).last() == name@);
            }
            match known {
                Some(index) => {
                    assert(name_views(namespaces@)[index as int] == name@);
                },
                None => {
                    let ghost before = name_views(namespaces@);
                    namespaces.push(requested[i].clone());
                    assert(name_views(namespaces@) =~= before.push(name@));
                },
            }
            i += 1;
        }
        proof {
            assert(wanted.take(i as int) =~= wanted);
            lemma_first_occurrences(wanted);
            assert forall|k: int| 0 <= k < wanted.len() implies !has_separator(
                #[trigger] wanted[k],
            ) by {
                assert(wanted[k] == requested@[k]@);
            }
            let kept = first_occurrences(wanted);
            assert forall|k: int| 0 <= k < kept.len() implies !has_separator(
                #[trigger] kept[k],
            ) by {
                assert(kept.contains(kept[k]));
                assert(wanted.contains(kept[k]));
            }
        }
        Ok(DbService { namespaces })
    }

    /// The authorized namespaces: each once, none holding the separator.
    pub fn namespaces(&self) -> (names: &Vec<String>)
        ensures
            name_views(names@) == self@,
            self@.no_duplicates(),
            separator_free(self@),
    {
        proof {
            use_type_invariant(self);
        }
        &self.namespaces
    }

    /// Where `namespace` stands among the authorized ones, if it is one.
    pub fn position(&self, namespace: &str) -> (found: Option<usize>)
        ensures
            found matches Some(index) ==> index < self@.len() && self@[index as int]
                == namespace@,
            found is None ==> !self@.contains(namespace@),
    {
        find_name(&self.namespaces, namespace)
    }

    /// Whether the service is authorized for `namespace`.
    pub fn is_authorized(&self, namespace: &str) -> (authorized: bool)
        ensures
            authorized == self@.contains(namespace@),
    {
        let found = find_name(&self.namespaces, namespace);
        proof {
            if let Some(index) = found {
                assert(self@[index as int] == namespace@);
            }
        }
        found.is_some()
    }

    /// The topics to subscribe to: one per authorized namespace, in order,
    /// each the two-segment route of the ready topic and the namespace.
    pub fn listen_channels(&self) -> (channels: Vec<String>)
        ensures
            channels@.len() == self@.len(),
            forall|i: int|
                0 <= i < self@.len() ==> (#[trigger] channels@[i])@ == ready_channel(self@[i]),
    {
        proof {
            use_type_invariant(self);
        }
        let mut channels: Vec<String> = Vec::new();
        let mut i: usize = 0;
        while i < self.namespaces.len()
            invariant
                i <= self.namespaces@.len(),
                channels@.len() == i,
                separator_free(self@),
                forall|k: int|
                    0 <= k < i ==> (#[trigger] channels@[k])@ == ready_channel(self@[k]),
            decreases self.namespaces@.len() - i,
        {
            assert(self@[i as int] == self.namespaces@[i as int]@);
            let route = ready_route(self.namespaces[i].as_str());
            channels.push(route);
            i += 1;
        }
        channels
    }
}

/// The ready topic holds no separator.
pub proof fn lemma_ready_topic_plain()
    ensures
        !has_separator(READY_TOPIC@),
{
    reveal_strlit("task_ready");
    let topic = READY_TOPIC@;
    assert(topic.len() == 10);
    assert forall|k: int| 0 <= k < topic.len() implies topic[k] != '/' by {
        assert(topic[0] == 't');
        assert(topic[1] == 'a');
        assert(topic[2] == 's');
        assert(topic[3] == 'k');
        assert(topic[4] == '_');
        assert(topic[5] == 'r');
        assert(topic[6] == 'e');
        assert(topic[7] == 'a');
        assert(topic[8] == 'd');
        assert(topic[9] == 'y');
    }
}

/// Builds the topic on which ready tasks of `namespace` are announced.
pub fn ready_route(namespace: &str) -> (route: String)
    requires
        !has_separator(namespace@),
    ensures
        route@ == ready_channel(namespace@),
{
    let segments: [&str; 2] = [READY_TOPIC, namespace];
    proof {
        lemma_ready_topic_plain();
        let views = segment_views(segments@);
        assert(views =~= seq![READY_TOPIC@, namespace@]);
    }
    build_channel_route(segments.as_slice())
}

/// Looks `name` up in `names` by its characters.
fn find_name(names: &Vec<String>, name: &str) -> (found: Option<usize>)
    ensures
        found matches Some(index) ==> index < names@.len() && names@[index as int]@ == name@,
        found is None ==> !name_views(names@).contains(name@),
{
    let mut i: usize = 0;
    while i < names.len()
        invariant
            i <= names@.len(),
            forall|k: int| 0 <= k < i ==> names@[k]@ != name@,
        decreases names@.len() - i,
    {
        if same_text(names[i].as_str(), name) {
            return Some(i);
        }
        i += 1;
    }
    None
}

} // verus!
