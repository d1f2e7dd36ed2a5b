//! The OCI `config.json` of the bundle being created.
use crate::path;
use crate::path::PathBuf;
use crate::text;
use vstd::prelude::*;

verus! {

/// The user the container's entrypoint runs as.
///
/// These IDs are relative to the container's user namespace, if it has one, so they must be
/// translated before use on the host: see [`crate::util::namespace::UserNamespace`].
#[non_exhaustive]
#[derive(Debug)]
pub struct User {
    pub uid: u32,
    pub gid: u32,
}

#[non_exhaustive]
#[derive(Debug)]
pub struct Process {
    pub user: User,
}

/// Free-form annotations. Each name has at most one value.
#[derive(Debug)]
pub struct Annotations {
    pub entries: Vec<(String, String)>,
}

/// OCI config, as far as it matters here.
#[non_exhaustive]
#[derive(Debug)]
pub struct Config {
    pub process: Process,
    /// The annotations by which the container manager passes the `org.lowrisc.hotplug.*`
    /// configuration. See [`crate::create`] for those that are read.
    pub annotations: Annotations,
}

pub struct ConfigView {
    pub uid: u32,
    pub gid: u32,
    pub annotations: Map<Seq<char>, Seq<char>>,
}

impl View for Config {
    type V = ConfigView;

    open spec fn view(&self) -> ConfigView {
        ConfigView {
            uid: self.process.user.uid,
            gid: self.process.user.gid,
            annotations: self.annotations@,
        }
    }
}

/// The names and values of some annotations.
pub open spec fn pairs(entries: Seq<(String, String)>) -> Seq<(Seq<char>, Seq<char>)> {
    entries.map_values(|e: (String, String)| (e.0@, e.1@))
}

/// The value that is listed for a name.
pub open spec fn listed(s: Seq<(Seq<char>, Seq<char>)>, name: Seq<char>) -> Option<Seq<char>>
    decreases s.len(),
{
    if s.len() == 0 {
        None
    } else if s[0].0 == name {
        Some(s[0].1)
    } else {
        listed(s.drop_first(), name)
    }
}

impl View for Annotations {
    type V = Map<Seq<char>, Seq<char>>;

    open spec fn view(&self) -> Map<Seq<char>, Seq<char>> {
        Map::new(
            |name: Seq<char>| listed(pairs(self.entries@), name) is Some,
            |name: Seq<char>| listed(pairs(self.entries@), name)->0,
        )
    }
}

proof fn lemma_listed(s: Seq<(Seq<char>, Seq<char>)>, name: Seq<char>, n: int)
    requires
        0 <= n <= s.len(),
        forall|i: int| 0 <= i < n ==> #[trigger] s[i].0 != name,
        n < s.len() ==> s[n].0 == name,
    ensures
        listed(s, name) == if n < s.len() {
            Some(s[n].1)
        } else {
            None
        },
    decreases s.len(),
{
    if s.len() > 0 && n > 0 {
        let t = s.drop_first();
        assert forall|i: int| 0 <= i < n - 1 implies #[trigger] t[i].0 != name by {
            assert(t[i] == s[i + 1]);
        }
        assert(s[0].0 != name);
        lemma_listed(t, name, n - 1);
    }
}

proof fn lemma_listed_update(
    s: Seq<(Seq<char>, Seq<char>)>,
    n: int,
    value: Seq<char>,
    other: Seq<char>,
)
    requires
        0 <= n < s.len(),
        other != s[n].0,
    ensures
        listed(s.update(n, (s[n].0, value)), other) == listed(s, other),
    decreases s.len(),
{
    let u = s.update(n, (s[n].0, value));
    let t = s.drop_first();
    if n == 0 {
        assert(u.drop_first() =~= t);
    } else {
        lemma_listed_update(t, n - 1, value, other);
        assert(u.drop_first() =~= t.update(n - 1, (t[n - 1].0, value)));
    }
}

proof fn lemma_listed_push(
    s: Seq<(Seq<char>, Seq<char>)>,
    name: Seq<char>,
    value: Seq<char>,
    other: Seq<char>,
)
    requires
        other != name,
    ensures
        listed(s.push((name, value)), other) == listed(s, other),
    decreases s.len(),
{
    let p = s.push((name, value));
    if s.len() == 0 {
        assert(p.drop_first() =~= s);
    } else {
        lemma_listed_push(s.drop_first(), name, value, other);
        assert(p.drop_first() =~= s.drop_first().push((name, value)));
    }
}

impl Annotations {
    /// No annotations.
    pub fn new() -> (r: Annotations)
        ensures
            r@ == Map::<Seq<char>, Seq<char>>::empty(),
    {
        let r = Annotations { entries: Vec::new() };
        assert(r@ =~= Map::empty());
        r
    }

    /// The index of the first entry for `name`, or the number of entries.
    fn find(&self, name: &str) -> (n: usize)
        ensures
            n <= self.entries@.len(),
            forall|i: int| 0 <= i < n ==> #[trigger] pairs(self.entries@)[i].0 != name@,
            n < self.entries@.len() ==> pairs(self.entries@)[n as int].0 == name@,
    {
        let mut i: usize = 0;
        while i < self.entries.len()
            invariant
                i <= self.entries@.len(),
                forall|j: int| 0 <= j < i ==> #[trigger] pairs(self.entries@)[j].0 != name@,
            decreases self.entries@.len() - i,
        {
            if text::same(self.entries[i].0.as_str(), name) {
                return i;
            }
            i = i + 1;
        }
        i
    }

    /// Set the value of an annotation.
    pub fn insert(&mut self, name: String, value: String)
        ensures
            final(self)@ == old(self)@.insert(name@, value@),
    {
        let n = self.find(name.as_str());
        let ghost before = pairs(self.entries@);
        let ghost was = self@;
        let ghost k = name@;
        let ghost v = value@;
        if n < self.entries.len() {
            self.entries.set(n, (name, value));
            assert(pairs(self.entries@) =~= before.update(n as int, (k, v)));
        } else {
            self.entries.push((name, value));
            assert(pairs(self.entries@) =~= before.push((k, v)));
        }
        proof {
            let now = pairs(self.entries@);
            assert forall|i: int| 0 <= i < n implies #[trigger] now[i].0 != k by {
                assert(before[i].0 != k);
            }
            lemma_listed(now, k, n as int);
            assert forall|other: Seq<char>| other != k implies #[trigger] listed(now, other)
                == listed(before, other) by {
                if n < before.len() {
                    lemma_listed_update(before, n as int, v, other);
                } else {
                    lemma_listed_push(before, k, v, other);
                }
            }
            assert forall|other: Seq<char>|
                #![trigger self@.contains_key(other)]
                #![trigger was.insert(k, v).contains_key(other)]
                self@.contains_key(other) == was.insert(k, v).contains_key(other) && (
                self@.contains_key(other) ==> self@[other] == was.insert(k, v)[other]) by {
                if other != k {
                    assert(listed(now, other) == listed(before, other));
                }
            }
            assert(self@ =~= was.insert(k, v));
        }
    }

    /// The value of an annotation.
    pub fn get(&self, name: &str) -> (r: Option<&String>)
        ensures
            match r {
                Some(v) => self@.contains_key(name@) && self@[name@] == v@,
                None => !self@.contains_key(name@),
            },
    {
        let n = self.find(name);
        proof {
            lemma_listed(pairs(self.entries@), name@, n as int);
        }
        if n < self.entries.len() {
            Some(&self.entries[n].1)
        } else {
            None
        }
    }
}

/// Where the config of a bundle is.
pub open spec fn config_path(bundle: Seq<u8>) -> Seq<u8> {
    path::joined(bundle, vstd::utf8::encode_utf8("config.json"@))
}

impl Config {
    /// A config with the given contents.
    pub fn new(uid: u32, gid: u32, annotations: Annotations) -> (r: Config)
        ensures
            r.process.user.uid == uid,
            r.process.user.gid == gid,
            r.annotations == annotations,
    {
        Config { process: Process { user: User { uid, gid } }, annotations }
    }

    /// The file that holds the config of an OCI bundle directory.
    pub fn from_bundle(bundle: &PathBuf) -> (r: PathBuf)
        ensures
            r@ == config_path(bundle@),
    {
        bundle.join(&PathBuf::from_text("config.json"))
    }
}

/// The config of a bundle is the file called `config.json` in its directory.
pub proof fn configs_are_in_their_bundle(bundle: Seq<u8>)
    requires
        bundle.len() > 0,
    ensures
        path::components(config_path(bundle)) == path::components(bundle).push(
            vstd::utf8::encode_utf8("config.json"@),
        ),
{
    reveal_strlit("config.json");
    vstd::utf8::is_ascii_chars_encode_utf8("config.json"@);
    let name = vstd::utf8::encode_utf8("config.json"@);
    assert(name.len() == 11);
    assert forall|i: int| 0 <= i < name.len() implies name[i] != path::SLASH by {
        assert("config.json"@[i] as u32 != 47);
    }
    assert(path::is_name(name));
    path::joined_name(bundle, name);
}

/// The first value that is listed for a name is its value, and does not matter to any other name.
pub proof fn first_listed_value_counts(
    s: Seq<(Seq<char>, Seq<char>)>,
    name: Seq<char>,
    value: Seq<char>,
    other: Seq<char>,
)
    ensures
        listed(seq![(name, value)] + s, name) == Some(value),
        other != name ==> listed(seq![(name, value)] + s, other) == listed(s, other),
        listed(Seq::<(Seq<char>, Seq<char>)>::empty(), name) is None,
{
    let t = seq![(name, value)] + s;
    assert(t[0] == (name, value));
    assert(t.drop_first() =~= s);
}

} // verus!
