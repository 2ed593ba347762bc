//! Whether the foreground app opted out of switching between its windows.
use crate::mru::contains;
use crate::text::{lemma_occurs_text, lemma_same_text_decides, lowercase, texts, to_lowercase};
use vstd::prelude::*;

verus! {

/// The blacklist, and whether the foreground app is in it.
#[derive(Debug)]
pub struct ForegroundWatcher {
    /// Executables in lowercase.
    blacklist: Vec<String>,
    is_foreground_in_blacklist: bool,
}

/// What a `ForegroundWatcher` says.
pub struct WatcherModel {
    pub blacklist: Set<Seq<char>>,
    pub is_foreground_in_blacklist: bool,
}

impl View for ForegroundWatcher {
    type V = WatcherModel;

    closed spec fn view(&self) -> WatcherModel {
        WatcherModel {
            blacklist: texts(self.blacklist@).to_set(),
            is_foreground_in_blacklist: self.is_foreground_in_blacklist,
        }
    }
}

/// The lowercase forms of a list of texts.
pub open spec fn lowered(list: Seq<Seq<char>>) -> Seq<Seq<char>> {
    list.map_values(|t: Seq<char>| lowercase(t))
}

impl ForegroundWatcher {
    /// Starts over with a blacklist. Until the foreground changes, the foreground
    /// app counts as not being in it.
    pub fn init(blacklist: &Vec<String>) -> (watcher: Self)
        ensures
            watcher@.blacklist == lowered(texts(blacklist@)).to_set(),
            !watcher@.is_foreground_in_blacklist,
    {
        let mut lower: Vec<String> = Vec::new();
        let mut i: usize = 0;
        while i < blacklist.len()
            invariant
                i <= blacklist@.len(),
                lower@.len() == i,
                forall|j: int| 0 <= j < i ==> (#[trigger] lower@[j])@ == lowercase(blacklist@[j]@),
            decreases blacklist@.len() - i,
        {
            lower.push(to_lowercase(blacklist[i].as_str()));
            i += 1;
        }
        assert(texts(lower@) =~= lowered(texts(blacklist@)));
        ForegroundWatcher { blacklist: lower, is_foreground_in_blacklist: false }
    }

    /// Whether changes of the foreground matter at all.
    pub fn needs_hook(&self) -> (needs: bool)
        ensures
            needs == (self@.blacklist != Set::<Seq<char>>::empty()),
    {
        let ghost list = texts(self.blacklist@);
        let needs = self.blacklist.len() > 0;
        proof {
            if needs {
                assert(list.to_set().contains(list[0]));
            } else {
                assert(list.to_set() =~= Set::empty());
            }
        }
        needs
    }

    /// Whether the foreground app is in the blacklist.
    pub fn is_foreground_in_blacklist(&self) -> (is: bool)
        ensures
            is == self@.is_foreground_in_blacklist,
    {
        self.is_foreground_in_blacklist
    }

    /// Takes note of a new foreground app, given the name of its executable in
    /// lowercase.
    pub fn set_foreground(&mut self, exe: &String)
        ensures
            final(self)@ == (WatcherModel {
                is_foreground_in_blacklist: old(self)@.blacklist.contains(exe@),
                ..old(self)@
            }),
    {
        proof {
            lemma_same_text_decides();
            lemma_occurs_text(self.blacklist@, *exe);
            assert(texts(self.blacklist@).to_set().contains(exe@) <==> texts(
                self.blacklist@,
            ).contains(exe@));
        }
        self.is_foreground_in_blacklist = contains(self.blacklist.as_slice(), exe);
    }

    /// Takes note of a new foreground window, given the executable it belongs to.
    /// Where that cannot be told, nothing changes.
    pub fn win_event_proc(&mut self, exe: Option<&str>)
        ensures
            final(self)@ == (match exe {
                Some(exe) => WatcherModel {
                    is_foreground_in_blacklist: old(self)@.blacklist.contains(lowercase(exe@)),
                    ..old(self)@
                },
                None => old(self)@,
            }),
    {
        match exe {
            Some(exe) => {
                let lower = to_lowercase(exe);
                self.set_foreground(&lower);
            },
            None => {},
        }
    }
}

/// Letter case does not matter: an app is found in the blacklist exactly if some
/// entry has the same lowercase form.
pub proof fn blacklist_ignores_case(list: Seq<Seq<char>>, exe: Seq<char>)
    ensures
        lowered(list).to_set().contains(lowercase(exe)) <==> exists|i: int|
            0 <= i < list.len() && lowercase(#[trigger] list[i]) == lowercase(exe),
{
    let lower = lowered(list);
    if lower.to_set().contains(lowercase(exe)) {
        let i = choose|i: int| 0 <= i < lower.len() && lower[i] == lowercase(exe);
        assert(lowercase(list[i]) == lowercase(exe));
    }
    if exists|i: int| 0 <= i < list.len() && lowercase(#[trigger] list[i]) == lowercase(exe) {
        let i = choose|i: int|
            0 <= i < list.len() && lowercase(#[trigger] list[i]) == lowercase(exe);
        assert(lower[i] == lowercase(exe));
    }
}

} // verus!
