//! The applications on offer.
//!
//! Whoever enumerates the installed applications describes each by three
//! things: the name it shows, whether it is meant to be shown at all, and
//! the command that starts it. From these the launcher builds its candidate
//! list: one entry for each name of a visible application, listed in name
//! order. Where several applications show one name, the one described last
//! is the one listed.

use vstd::prelude::*;
use vstd::string::StringExecFns;

use crate::launcher::Launcher;
use crate::listing::{
    insert_candidate,
    lemma_belonging_name_is_absent,
    lemma_listing_lookup,
    listing_map,
    names_of,
    position_of,
    shown_name,
    well_ordered,
};

verus! {

/// One installed application, as its provider describes it.
#[derive(Debug, Clone)]
pub struct AppInfo {
    /// The name to show for it, if it has one.
    pub name: Option<String>,
    /// Whether it is meant to be offered to the user.
    pub visible: bool,
    /// The command line that starts it, if it has one.
    pub exec_command: Option<String>,
}

/// An application description as a mathematical value.
pub struct AppInfoView {
    pub name: Option<Seq<char>>,
    pub visible: bool,
    pub exec_command: Option<Seq<char>>,
}

impl DeepView for AppInfo {
    type V = AppInfoView;

    open spec fn deep_view(&self) -> AppInfoView {
        AppInfoView {
            name: self.name.deep_view(),
            visible: self.visible,
            exec_command: self.exec_command.deep_view(),
        }
    }
}

impl View for AppInfo {
    type V = AppInfoView;

    open spec fn view(&self) -> AppInfoView {
        self.deep_view()
    }
}

/// Whether `app` is offered to the user: it is visible and has a name to
/// be shown under.
pub open spec fn is_candidate(app: AppInfoView) -> bool {
    app.visible && app.name is Some
}

/// The applications of `apps` that are visible, in the order in which they came.
pub open spec fn visible_of(apps: Seq<AppInfoView>) -> Seq<AppInfoView> {
    apps.filter(|app: AppInfoView| app.visible)
}

/// The candidates among `apps` by name. Of several candidates with one
/// name, the last one stands.
pub open spec fn candidates_of(apps: Seq<AppInfoView>) -> Map<Seq<char>, AppInfoView>
    decreases apps.len(),
{
    if apps.len() == 0 {
        Map::empty()
    } else if is_candidate(apps.last()) {
        candidates_of(apps.drop_last()).insert(apps.last().name->0, apps.last())
    } else {
        candidates_of(apps.drop_last())
    }
}

/// Whether application `i` of `apps` is a candidate that goes by `name`.
pub open spec fn candidate_at(apps: Seq<AppInfoView>, name: Seq<char>, i: int) -> bool {
    0 <= i < apps.len() && is_candidate(apps[i]) && apps[i].name == Some(name)
}

/// The names on offer are exactly the names of the visible applications.
pub proof fn lemma_candidate_names(apps: Seq<AppInfoView>, name: Seq<char>)
    ensures
        candidates_of(apps).contains_key(name) <==> exists|i: int| candidate_at(apps, name, i),
    decreases apps.len(),
{
    if apps.len() > 0 {
        let front = apps.drop_last();
        let last = apps.len() - 1;
        lemma_candidate_names(front, name);
        if candidates_of(apps).contains_key(name) {
            if candidate_at(apps, name, last) {
            } else {
                let i = choose|i: int| candidate_at(front, name, i);
                assert(candidate_at(apps, name, i));
            }
        }
        if exists|i: int| candidate_at(apps, name, i) {
            let i = choose|i: int| candidate_at(apps, name, i);
            if i < last {
                assert(candidate_at(front, name, i));
            }
        }
    }
}

/// Last seen wins: where several candidates go by one name, the name
/// stands for the one that comes last among `apps`.
pub proof fn lemma_last_seen_wins(apps: Seq<AppInfoView>, name: Seq<char>, i: int)
    ensures
        candidate_at(apps, name, i) && (forall|j: int| i < j ==> !candidate_at(apps, name, j))
            ==> candidates_of(apps).contains_key(name) && candidates_of(apps)[name] == apps[i],
    decreases apps.len(),
{
    if candidate_at(apps, name, i) && (forall|j: int| i < j ==> !candidate_at(apps, name, j)) {
        let front = apps.drop_last();
        let last = apps.len() - 1;
        if i < last {
            assert(candidate_at(front, name, i));
            assert forall|j: int| i < j implies !candidate_at(front, name, j) by {
                assert(!candidate_at(apps, name, j));
            }
            assert(!candidate_at(apps, name, last));
            lemma_last_seen_wins(front, name, i);
        }
    }
}

/// Hidden applications play no part in the candidates: leaving them out
/// beforehand changes nothing.
pub proof fn lemma_hidden_applications_are_no_candidates(apps: Seq<AppInfoView>)
    ensures
        candidates_of(visible_of(apps)) == candidates_of(apps),
    decreases apps.len(),
{
    let shown = |app: AppInfoView| app.visible;
    if apps.len() == 0 {
        assert(apps.filter(shown) =~= apps) by {
            reveal(Seq::filter);
        }
    } else {
        let front = apps.drop_last();
        let last = apps.last();
        lemma_hidden_applications_are_no_candidates(front);
        front.lemma_filter_push(last, shown);
        assert(front.push(last) =~= apps);
        if last.visible {
            assert(visible_of(apps).drop_last() =~= visible_of(front));
        }
    }
}

/// The candidate list: the applications on offer, by name and in name
/// order.
#[derive(Debug)]
pub struct CandidateList {
    entries: Vec<AppInfo>,
}

impl View for CandidateList {
    type V = Map<Seq<char>, AppInfoView>;

    /// The entries by name.
    open spec fn view(&self) -> Map<Seq<char>, AppInfoView> {
        listing_map(self.listing())
    }
}

impl CandidateList {
    #[verifier::type_invariant]
    spec fn in_order(&self) -> bool {
        well_ordered(self.entries.deep_view())
    }

    /// The entries in the order in which they are listed.
    pub closed spec fn listing(&self) -> Seq<AppInfoView> {
        self.entries.deep_view()
    }

    /// The names in the order in which they are listed.
    pub open spec fn names(&self) -> Seq<Seq<char>> {
        names_of(self.listing())
    }

    /// Looks up the entry that goes by `name`.
    pub fn get(&self, name: &str) -> (app: Option<&AppInfo>)
        ensures
            match app {
                Some(found) => self@.contains_key(name@) && self@[name@] == found@,
                None => !self@.contains_key(name@),
            },
    {
        proof {
            use_type_invariant(self);
        }
        let (at, found) = position_of(&self.entries, name);
        if found {
            proof {
                lemma_listing_lookup(self.listing(), at as int);
            }
            Some(&self.entries[at])
        } else {
            proof {
                lemma_belonging_name_is_absent(self.listing(), name@, at as int);
            }
            None
        }
    }

    /// The names on offer, in listing order.
    pub fn display_names(&self) -> (names: Vec<String>)
        ensures
            well_ordered(self.listing()),
            names.deep_view() == self.names(),
    {
        proof {
            use_type_invariant(self);
        }
        let mut names: Vec<String> = Vec::new();
        let mut i: usize = 0;
        while i < self.entries.len()
            invariant
                well_ordered(self.entries.deep_view()),
                i <= self.entries.len(),
                names.deep_view() == self.names().take(i as int),
            decreases self.entries.len() - i,
        {
            assert(is_candidate(self.entries.deep_view()[i as int]));
            let ghost listed = names.deep_view();
            let name = shown_name(&self.entries[i]).clone();
            names.push(name);
            proof {
                assert(names.deep_view() =~= listed.push(name@));
                assert(self.names().take(i + 1) =~= self.names().take(i as int).push(
                    self.names()[i as int],
                ));
            }
            i = i + 1;
        }
        proof {
            assert(self.names().take(i as int) =~= self.names());
        }
        names
    }
}

/// The lines `names`, each but the last ended by a line feed.
pub open spec fn join_lines(names: Seq<Seq<char>>) -> Seq<char>
    decreases names.len(),
{
    if names.len() == 0 {
        Seq::empty()
    } else if names.len() == 1 {
        names[0]
    } else {
        join_lines(names.drop_last()) + seq!['\n'] + names.last()
    }
}

/// The command line of `app`: the one it was described with, or the empty
/// one.
pub open spec fn command_of(app: AppInfoView) -> Seq<char> {
    match app.exec_command {
        Some(command) => command,
        None => Seq::empty(),
    }
}

impl Launcher {
    /// Keeps the applications that are meant to be shown.
    pub fn visible_applications(&self, apps: Vec<AppInfo>) -> (visible: Vec<AppInfo>)
        ensures
            visible.deep_view() == visible_of(apps.deep_view()),
            forall|i: int| 0 <= i < visible.len() ==> (#[trigger] visible[i]).visible,
    {
        let ghost all = apps.deep_view();
        let mut visible: Vec<AppInfo> = Vec::new();
        for app in it: apps
            invariant
                it.seq().len() == all.len(),
                forall|i: int| 0 <= i < all.len() ==> (#[trigger] it.seq()[i])@ == all[i],
                visible.deep_view() == visible_of(all.take(it.index() as int)),
                forall|i: int| 0 <= i < visible.len() ==> (#[trigger] visible[i]).visible,
        {
            proof {
                let seen = all.take(it.index() as int);
                assert(all.take(it.index() + 1) =~= seen.push(app@));
                seen.lemma_filter_push(app@, |app: AppInfoView| app.visible);
            }
            if app.visible {
                visible.push(app);
            }
        }
        proof {
            assert(all.take(all.len() as int) =~= all);
        }
        visible
    }

    /// Builds the candidate list from the installed applications `apps`.
    ///
    /// Every visible application with a name is listed under that name. A
    /// later application takes the place of an earlier one with its name.
    pub fn desktop_applications(&self, apps: Vec<AppInfo>) -> (list: CandidateList)
        ensures
            list@ == candidates_of(apps.deep_view()),
            well_ordered(list.listing()),
    {
        let ghost described = apps.deep_view();
        let shown = self.visible_applications(apps);
        let ghost all = shown.deep_view();
        let mut entries: Vec<AppInfo> = Vec::new();
        proof {
            assert(listing_map(entries.deep_view()) =~= Map::empty());
        }
        for app in it: shown
            invariant
                it.seq().len() == all.len(),
                forall|i: int| 0 <= i < all.len() ==> (#[trigger] it.seq()[i])@ == all[i],
                forall|i: int| 0 <= i < all.len() ==> (#[trigger] all[i]).visible,
                well_ordered(entries.deep_view()),
                listing_map(entries.deep_view()) == candidates_of(all.take(it.index() as int)),
        {
            proof {
                let seen = all.take(it.index() + 1);
                assert(seen.last() == app@);
                assert(seen.drop_last() =~= all.take(it.index() as int));
            }
            if app.name.is_some() {
                insert_candidate(&mut entries, app);
            }
        }
        proof {
            assert(all.take(all.len() as int) =~= all);
            lemma_hidden_applications_are_no_candidates(described);
        }
        CandidateList { entries }
    }

    /// The text that offers the candidates to a picker: their names in
    /// listing order, one per line.
    pub fn desktop_applications_string(&self, apps: &CandidateList) -> (text: String)
        ensures
            text@ == join_lines(apps.names()),
    {
        let names = apps.display_names();
        let mut text = String::new();
        let mut i: usize = 0;
        while i < names.len()
            invariant
                i <= names.len(),
                text@ == join_lines(names.deep_view().take(i as int)),
            decreases names.len() - i,
        {
            proof {
                reveal_strlit("\n");
                let lines = names.deep_view().take(i + 1);
                assert(lines.drop_last() =~= names.deep_view().take(i as int));
                assert(lines.last() == names[i as int]@);
                assert("\n"@ =~= seq!['\n']);
            }
            if i > 0 {
                text.append("\n");
            }
            text.append(names[i].as_str());
            proof {
                assert(text@ =~= join_lines(names.deep_view().take(i + 1)));
            }
            i = i + 1;
        }
        proof {
            assert(names.deep_view().take(i as int) =~= names.deep_view());
        }
        text
    }

    /// The command line that starts `appinfo`, empty where it has none.
    pub fn get_command_from_appinfo(&self, appinfo: &AppInfo) -> (command: String)
        ensures
            command@ == command_of(appinfo@),
    {
        match &appinfo.exec_command {
            Some(command) => command.clone(),
            None => String::new(),
        }
    }
}

} // verus!
