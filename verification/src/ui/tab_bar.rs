//! The tab bar: the name of each open file, the active one highlighted.
use vstd::prelude::*;
use crate::models::editor_tab::EditorTab;
use crate::text::push_char;

verus! {

/// How a piece of the tab bar is drawn.
#[derive(Debug, Clone, Copy, PartialEq, Eq, Structural)]
pub enum TabStyle {
    /// The bar itself.
    Bar,
    /// The active tab's name.
    Active,
    /// Another tab's name.
    Inactive,
    /// The separator between two tabs.
    Separator,
}

/// The pieces of the tab bar for the given names: a leading space, each
/// name with a space on either side, separated by `|`.
pub open spec fn tab_pieces(names: Seq<Seq<char>>, active: int, n: int) -> Seq<(Seq<char>, TabStyle)>
    decreases n,
{
    if n <= 0 {
        seq![(seq![' '], TabStyle::Bar)]
    } else {
        tab_pieces(names, active, n - 1)
            + (if n - 1 > 0 { seq![(seq!['|'], TabStyle::Separator)] } else { seq![] })
            + seq![(seq![' '] + names[n - 1] + seq![' '], if n - 1 == active { TabStyle::Active } else { TabStyle::Inactive })]
    }
}

/// The pieces of the tab bar; nothing when no tab is open.
pub fn tab_bar_items(tabs: &Vec<EditorTab>, active: usize) -> (r: Vec<(String, TabStyle)>)
    ensures
        tabs@.len() == 0 ==> r@.len() == 0,
        tabs@.len() > 0 ==> r@.map_values(|p: (String, TabStyle)| (p.0@, p.1)) == tab_pieces(
            tabs@.map_values(|t: EditorTab| t.display_name_spec()),
            active as int,
            tabs@.len() as int,
        ),
{
    let mut r: Vec<(String, TabStyle)> = Vec::new();
    if tabs.len() == 0 {
        return r;
    }
    let ghost names = tabs@.map_values(|t: EditorTab| t.display_name_spec());
    let mut lead = String::new();
    push_char(&mut lead, ' ');
    r.push((lead, TabStyle::Bar));
    proof {
        assert(r@.map_values(|p: (String, TabStyle)| (p.0@, p.1)) =~= tab_pieces(names, active as int, 0));
    }
    let mut i: usize = 0;
    while i < tabs.len()
        invariant
            names == tabs@.map_values(|t: EditorTab| t.display_name_spec()),
            i <= tabs@.len(),
            r@.map_values(|p: (String, TabStyle)| (p.0@, p.1)) == tab_pieces(names, active as int, i as int),
        decreases tabs.len() - i,
    {
        let ghost before = r@.map_values(|p: (String, TabStyle)| (p.0@, p.1));
        if i > 0 {
            let mut bar = String::new();
            push_char(&mut bar, '|');
            r.push((bar, TabStyle::Separator));
            assert(r@.map_values(|p: (String, TabStyle)| (p.0@, p.1)) =~= before + seq![(seq!['|'], TabStyle::Separator)]);
        } else {
            assert(r@.map_values(|p: (String, TabStyle)| (p.0@, p.1)) =~= before + Seq::<(Seq<char>, TabStyle)>::empty());
        }
        let ghost mid = r@.map_values(|p: (String, TabStyle)| (p.0@, p.1));
        let name = tabs[i].display_name();
        let mut label = String::new();
        push_char(&mut label, ' ');
        label.append(name.as_str());
        push_char(&mut label, ' ');
        let style = if i == active { TabStyle::Active } else { TabStyle::Inactive };
        proof {
            assert(names[i as int] == tabs@[i as int].display_name_spec());
            assert(label@ =~= seq![' '] + names[i as int] + seq![' ']);
        }
        let ghost lv = label@;
        r.push((label, style));
        proof {
            assert(r@.map_values(|p: (String, TabStyle)| (p.0@, p.1)) =~= mid.push((lv, style)));
            assert(r@.map_values(|p: (String, TabStyle)| (p.0@, p.1)) =~= tab_pieces(names, active as int, i + 1));
        }
        i = i + 1;
    }
    r
}

} // verus!
