//! Theme identity: font weights, the theme catalog, and which theme is
//! active.
//!
//! The visual tokens of a theme (colors, sizes) are floating-point data and
//! live with the caller; this module keeps the identifiers and names that
//! decide which theme is shown and what the theme menu lists.
use vstd::prelude::*;

use crate::config::spec_sanitize_config_file_stem;
use crate::json::{
    deep_copy, entries_view, entry_get, entry_insert, entry_remove, filter_json_by_schema,
    find_entry, insert_entry, json_kinds_match, kinds_match, lemma_object_view, merged, prune, prune_entries, remove_entry,
    spec_filter, spec_merge, spec_prune, JsonValue, JsonView,
};
use crate::text::trim;

verus! {

broadcast use vstd::string::group_string_axioms;

// ---------------------------------------------------------------------------
// Font weights
// ---------------------------------------------------------------------------
/// A font weight as written in theme files.
#[derive(Clone, Copy, PartialEq, Eq, Structural, Debug)]
pub enum FontWeightDef {
    /// Thin font weight.
    Thin,
    /// Light font weight.
    Light,
    /// Normal font weight.
    Normal,
    /// Medium font weight.
    Medium,
    /// Semibold font weight.
    Semibold,
    /// Bold font weight.
    Bold,
    /// Extra-bold font weight.
    Extrabold,
    /// Black font weight.
    Black,
}

/// The CSS `font-weight` number of a weight.
pub open spec fn spec_css_font_weight(weight: FontWeightDef) -> u16 {
    match weight {
        FontWeightDef::Thin => 100,
        FontWeightDef::Light => 300,
        FontWeightDef::Normal => 400,
        FontWeightDef::Medium => 500,
        FontWeightDef::Semibold => 600,
        FontWeightDef::Bold => 700,
        FontWeightDef::Extrabold => 800,
        FontWeightDef::Black => 900,
    }
}

pub fn css_font_weight(weight: &FontWeightDef) -> (r: u16)
    ensures
        r == spec_css_font_weight(*weight),
{
    match weight {
        FontWeightDef::Thin => 100,
        FontWeightDef::Light => 300,
        FontWeightDef::Normal => 400,
        FontWeightDef::Medium => 500,
        FontWeightDef::Semibold => 600,
        FontWeightDef::Bold => 700,
        FontWeightDef::Extrabold => 800,
        FontWeightDef::Black => 900,
    }
}

/// The place of a weight from thinnest to heaviest.
pub open spec fn weight_rank(weight: FontWeightDef) -> nat {
    match weight {
        FontWeightDef::Thin => 0,
        FontWeightDef::Light => 1,
        FontWeightDef::Normal => 2,
        FontWeightDef::Medium => 3,
        FontWeightDef::Semibold => 4,
        FontWeightDef::Bold => 5,
        FontWeightDef::Extrabold => 6,
        FontWeightDef::Black => 7,
    }
}

/// CSS weights are hundreds from 100 to 900, a heavier weight gets a
/// larger number; `normal` is 400 and `bold` is 700, and the thin, light
/// and black ends are 100, 300 and 900, as CSS names its weights.
pub proof fn law_css_font_weights_follow_css(a: FontWeightDef, b: FontWeightDef)
    ensures
        100 <= spec_css_font_weight(a) <= 900,
        spec_css_font_weight(a) % 100 == 0,
        weight_rank(a) < weight_rank(b) ==> spec_css_font_weight(a) < spec_css_font_weight(b),
        spec_css_font_weight(FontWeightDef::Normal) == 400,
        spec_css_font_weight(FontWeightDef::Bold) == 700,
        spec_css_font_weight(FontWeightDef::Thin) == 100,
        spec_css_font_weight(FontWeightDef::Light) == 300,
        spec_css_font_weight(FontWeightDef::Black) == 900,
{
}

/// Placeholder text shown in empty interactive elements.
#[derive(Clone, Debug)]
pub struct Placeholders {
    /// Text shown in an empty focused block.
    pub empty_editing: String,
}

// ---------------------------------------------------------------------------
// The catalog
// ---------------------------------------------------------------------------
/// Metadata for a selectable theme.
#[derive(Clone, Debug)]
pub struct ThemeCatalogEntry {
    pub id: String,
    pub name: String,
}

impl ThemeCatalogEntry {
    pub open spec fn view(&self) -> (Seq<char>, Seq<char>) {
        (self.id@, self.name@)
    }
}

pub open spec fn catalog_view(v: Seq<ThemeCatalogEntry>) -> Seq<(Seq<char>, Seq<char>)> {
    v.map_values(|e: ThemeCatalogEntry| e.view())
}

/// Identifier of the built-in dark theme.
pub open spec fn velotype_id() -> Seq<char> {
    "velotype"@
}

/// Identifier of the built-in light theme.
pub open spec fn velotype_light_id() -> Seq<char> {
    "velotype-light"@
}

/// Identifier given to a theme loaded from outside the catalog.
pub open spec fn custom_id() -> Seq<char> {
    "custom"@
}

/// The built-in themes: Velotype, then Velotype Light.
pub open spec fn builtin_catalog() -> Seq<(Seq<char>, Seq<char>)> {
    seq![(velotype_id(), "Velotype"@), (velotype_light_id(), "Velotype Light"@)]
}

pub fn builtin_theme_catalog() -> (r: Vec<ThemeCatalogEntry>)
    ensures
        catalog_view(r@) == builtin_catalog(),
{
    let mut r: Vec<ThemeCatalogEntry> = Vec::new();
    r.push(ThemeCatalogEntry { id: "velotype".to_owned(), name: "Velotype".to_owned() });
    r.push(
        ThemeCatalogEntry { id: "velotype-light".to_owned(), name: "Velotype Light".to_owned() },
    );
    assert(catalog_view(r@) =~= builtin_catalog());
    r
}

// ---------------------------------------------------------------------------
// Imported themes
// ---------------------------------------------------------------------------
/// An imported theme: its identifier, name and creator.
#[derive(Clone, Debug)]
pub struct CustomThemeEntry {
    pub id: String,
    pub name: String,
    pub creator: String,
}

/// The spec form of a `CustomThemeEntry`.
pub struct CustomThemeView {
    pub id: Seq<char>,
    pub name: Seq<char>,
    pub creator: Seq<char>,
}

impl CustomThemeEntry {
    pub open spec fn view(&self) -> CustomThemeView {
        CustomThemeView { id: self.id@, name: self.name@, creator: self.creator@ }
    }
}

pub open spec fn customs_view(v: Seq<CustomThemeEntry>) -> Seq<CustomThemeView> {
    v.map_values(|e: CustomThemeEntry| e.view())
}

/// The identifier of an imported theme: `custom:{name}_{creator}`, both
/// made safe as file-name stems.
pub open spec fn spec_custom_theme_id(name: Seq<char>, creator: Seq<char>) -> Seq<char> {
    "custom:"@ + spec_sanitize_config_file_stem(name) + "_"@ + spec_sanitize_config_file_stem(
        creator,
    )
}

/// The file an imported theme is stored in: `{name}_{creator}.json`.
pub open spec fn spec_custom_theme_file_name(name: Seq<char>, creator: Seq<char>) -> Seq<char> {
    spec_sanitize_config_file_stem(name) + "_"@ + spec_sanitize_config_file_stem(creator)
        + ".json"@
}

pub fn custom_theme_id(name: &str, creator: &str) -> (r: String)
    ensures
        r@ == spec_custom_theme_id(name@, creator@),
{
    let mut r = "custom:".to_owned();
    crate::text::append_str(&mut r, crate::config::sanitize_config_file_stem(name).as_str());
    crate::text::append_str(&mut r, "_");
    crate::text::append_str(&mut r, crate::config::sanitize_config_file_stem(creator).as_str());
    r
}

pub fn custom_theme_file_name(name: &str, creator: &str) -> (r: String)
    ensures
        r@ == spec_custom_theme_file_name(name@, creator@),
{
    let mut r = crate::config::sanitize_config_file_stem(name);
    crate::text::append_str(&mut r, "_");
    crate::text::append_str(&mut r, crate::config::sanitize_config_file_stem(creator).as_str());
    crate::text::append_str(&mut r, ".json");
    r
}

/// The catalog entry of an imported theme: its identifier, and
/// `{name} - {creator}`.
pub open spec fn custom_catalog_entry(e: CustomThemeView) -> (Seq<char>, Seq<char>) {
    (e.id, e.name + " - "@ + e.creator)
}

/// The full catalog: the built-in themes, then the imported ones in order.
pub open spec fn full_catalog(customs: Seq<CustomThemeView>) -> Seq<(Seq<char>, Seq<char>)> {
    builtin_catalog() + customs.map_values(|e: CustomThemeView| custom_catalog_entry(e))
}

/// No two imported themes share an identifier.
pub open spec fn unique_ids(customs: Seq<CustomThemeView>) -> bool {
    forall|i: int, j: int|
        0 <= i < customs.len() && 0 <= j < customs.len() && i != j ==> #[trigger] customs[i].id
            != #[trigger] customs[j].id
}

/// Position of the imported theme with identifier `id`.
pub open spec fn custom_index(customs: Seq<CustomThemeView>, id: Seq<char>) -> Option<int> {
    if exists|i: int| 0 <= i < customs.len() && customs[i].id == id {
        Some(choose|i: int| 0 <= i < customs.len() && customs[i].id == id)
    } else {
        None
    }
}

/// An identifier that `set_theme_by_id` accepts: a built-in theme or an
/// imported one.
pub open spec fn is_known_theme(customs: Seq<CustomThemeView>, id: Seq<char>) -> bool {
    id == velotype_id() || id == velotype_light_id() || custom_index(customs, id) is Some
}

/// The imported themes after `entry` is added, or replaces the one with
/// the same identifier in place.
pub open spec fn spec_upsert(customs: Seq<CustomThemeView>, entry: CustomThemeView) -> Seq<CustomThemeView> {
    match custom_index(customs, entry.id) {
        Some(i) => customs.update(i, entry),
        None => customs.push(entry),
    }
}

// ---------------------------------------------------------------------------
// The manager
// ---------------------------------------------------------------------------
/// Which theme is active, which themes were imported, and the catalog the
/// theme menu shows.
pub struct ThemeManager {
    current_theme_id: String,
    custom_themes: Vec<CustomThemeEntry>,
    theme_catalog: Vec<ThemeCatalogEntry>,
}

impl ThemeManager {
    pub closed spec fn current_view(&self) -> Seq<char> {
        self.current_theme_id@
    }

    pub closed spec fn customs(&self) -> Seq<CustomThemeView> {
        customs_view(self.custom_themes@)
    }

    pub closed spec fn catalog(&self) -> Seq<(Seq<char>, Seq<char>)> {
        catalog_view(self.theme_catalog@)
    }

    /// The catalog lists the built-in themes then the imported ones, and
    /// imported identifiers are unique.
    pub open spec fn wf(&self) -> bool {
        &&& self.catalog() == full_catalog(self.customs())
        &&& unique_ids(self.customs())
    }

    /// The built-in dark theme active, nothing imported.
    pub fn new() -> (r: Self)
        ensures
            r.wf(),
            r.current_view() == velotype_id(),
            r.customs() == Seq::<CustomThemeView>::empty(),
            r.catalog() == builtin_catalog(),
    {
        let r = ThemeManager {
            current_theme_id: "velotype".to_owned(),
            custom_themes: Vec::new(),
            theme_catalog: builtin_theme_catalog(),
        };
        assert(r.customs() =~= Seq::<CustomThemeView>::empty());
        assert(full_catalog(r.customs()) =~= builtin_catalog());
        r
    }

    /// The identifier of the active theme.
    pub fn current_theme_id(&self) -> (r: &str)
        ensures
            r@ == self.current_view(),
    {
        self.current_theme_id.as_str()
    }

    /// All built-in and imported themes, as the theme menu lists them.
    pub fn available_themes(&self) -> (r: &[ThemeCatalogEntry])
        ensures
            catalog_view(r@) == self.catalog(),
    {
        self.theme_catalog.as_slice()
    }

    /// Restores the built-in dark theme.
    pub fn reset(&mut self)
        requires
            old(self).wf(),
        ensures
            final(self).wf(),
            final(self).current_view() == velotype_id(),
            final(self).customs() == old(self).customs(),
    {
        self.current_theme_id = "velotype".to_owned();
    }

    /// The identifier for a theme loaded by name from outside the catalog:
    /// a built-in identifier for a built-in name, `custom` otherwise.
    pub open spec fn spec_theme_id_for_name(name: Seq<char>) -> Seq<char> {
        if name == "Velotype"@ {
            velotype_id()
        } else if name == "Velotype Light"@ {
            velotype_light_id()
        } else {
            custom_id()
        }
    }

    pub fn theme_id_for_loaded_theme(&self, theme_name: &str) -> (r: String)
        ensures
            r@ == Self::spec_theme_id_for_name(theme_name@),
    {
        let name = theme_name.to_owned();
        if name == "Velotype".to_owned() {
            "velotype".to_owned()
        } else if name == "Velotype Light".to_owned() {
            "velotype-light".to_owned()
        } else {
            "custom".to_owned()
        }
    }

    /// Marks a theme loaded from outside the catalog, named `theme_name`,
    /// as active.
    pub fn set_theme(&mut self, theme_name: &str)
        requires
            old(self).wf(),
        ensures
            final(self).wf(),
            final(self).current_view() == Self::spec_theme_id_for_name(theme_name@),
            final(self).customs() == old(self).customs(),
    {
        self.current_theme_id = self.theme_id_for_loaded_theme(theme_name);
    }

    fn find_custom(&self, id: &str) -> (r: Option<usize>)
        requires
            unique_ids(self.customs()),
        ensures
            match (r, custom_index(self.customs(), id@)) {
                (Some(i), Some(si)) => i == si && i < self.custom_themes.len(),
                (None, None) => true,
                _ => false,
            },
            r matches Some(i) ==> i < self.custom_themes.len() && self.customs()[i as int].id
                == id@,
    {
        let key = id.to_owned();
        let mut i: usize = 0;
        while i < self.custom_themes.len()
            invariant
                i <= self.custom_themes.len(),
                key@ == id@,
                unique_ids(self.customs()),
                forall|j: int| 0 <= j < i ==> self.customs()[j].id != id@,
            decreases self.custom_themes.len() - i,
        {
            assert(self.customs()[i as int] == self.custom_themes@[i as int].view());
            if self.custom_themes[i].id == key {
                proof {
                    let si = choose|j: int|
                        0 <= j < self.customs().len() && self.customs()[j].id == id@;
                    assert(self.customs()[i as int].id == id@);
                    if si != i {
                        assert(self.customs()[si].id != self.customs()[i as int].id);
                    }
                }
                return Some(i);
            }
            i += 1;
        }
        None
    }

    /// Activates the theme with identifier `theme_id`. Returns whether the
    /// identifier is known; an unknown one leaves the active theme as it
    /// was.
    pub fn set_theme_by_id(&mut self, theme_id: &str) -> (r: bool)
        requires
            old(self).wf(),
        ensures
            final(self).wf(),
            r == is_known_theme(old(self).customs(), theme_id@),
            r ==> final(self).current_view() == theme_id@,
            !r ==> final(self).current_view() == old(self).current_view(),
            final(self).customs() == old(self).customs(),
    {
        let id = theme_id.to_owned();
        if id == "velotype".to_owned() {
            self.current_theme_id = "velotype".to_owned();
            return true;
        }
        if id == "velotype-light".to_owned() {
            self.current_theme_id = "velotype-light".to_owned();
            return true;
        }
        match self.find_custom(theme_id) {
            Some(i) => {
                let found = self.custom_themes[i].id.clone();
                self.current_theme_id = found;
                true
            },
            None => false,
        }
    }

    fn rebuild_theme_catalog(&mut self)
        ensures
            final(self).catalog() == full_catalog(old(self).customs()),
            final(self).customs() == old(self).customs(),
            final(self).current_view() == old(self).current_view(),
    {
        let mut catalog = builtin_theme_catalog();
        let ghost cs = self.customs();
        let mut i: usize = 0;
        while i < self.custom_themes.len()
            invariant
                i <= self.custom_themes.len(),
                cs == customs_view(self.custom_themes@),
                catalog_view(catalog@) == builtin_catalog() + cs.take(i as int).map_values(
                    |e: CustomThemeView| custom_catalog_entry(e),
                ),
            decreases self.custom_themes.len() - i,
        {
            let ghost before = catalog_view(catalog@);
            let e = &self.custom_themes[i];
            assert(cs[i as int] == e.view());
            let mut name = e.name.clone();
            crate::text::append_str(&mut name, " - ");
            crate::text::append_str(&mut name, e.creator.as_str());
            catalog.push(ThemeCatalogEntry { id: e.id.clone(), name });
            assert(catalog_view(catalog@) =~= before.push(custom_catalog_entry(e.view())));
            assert(cs.take(i + 1) =~= cs.take(i as int).push(cs[i as int]));
            assert(builtin_catalog() + cs.take(i + 1).map_values(
                |e: CustomThemeView| custom_catalog_entry(e),
            ) =~= before.push(custom_catalog_entry(e.view())));
            i += 1;
        }
        assert(cs.take(self.custom_themes.len() as int) =~= cs);
        self.theme_catalog = catalog;
    }

    /// Adds an imported theme, or replaces the one with the same identifier
    /// in place, and rebuilds the catalog.
    pub fn upsert_custom_theme(&mut self, entry: CustomThemeEntry)
        requires
            old(self).wf(),
        ensures
            final(self).wf(),
            final(self).customs() == spec_upsert(old(self).customs(), entry.view()),
            final(self).current_view() == old(self).current_view(),
    {
        let ghost before = self.customs();
        let ghost ev = entry.view();
        match self.find_custom(entry.id.as_str()) {
            Some(i) => {
                self.custom_themes.set(i, entry);
                assert(self.customs() =~= before.update(i as int, ev));
            },
            None => {
                self.custom_themes.push(entry);
                assert(self.customs() =~= before.push(ev));
            },
        }
        proof {
            lemma_upsert_unique(before, ev);
        }
        self.rebuild_theme_catalog();
    }

    /// Records an imported theme and activates it; returns its identifier.
    pub fn import_custom_theme(&mut self, entry: CustomThemeEntry) -> (r: String)
        requires
            old(self).wf(),
        ensures
            final(self).wf(),
            r@ == entry.id@,
            final(self).customs() == spec_upsert(old(self).customs(), entry.view()),
            final(self).current_view() == entry.id@,
    {
        let id = entry.id.clone();
        let ghost ev = entry.view();
        let ghost before = self.customs();
        self.upsert_custom_theme(entry);
        proof {
            law_upserted_theme_is_known(before, ev);
        }
        let ok = self.set_theme_by_id(id.as_str());
        assert(ok);
        id
    }
}

// ---------------------------------------------------------------------------
// Loading stored themes
// ---------------------------------------------------------------------------
/// `a` sorts before `b`: compared character by character, as Rust compares
/// strings (UTF-8 byte order is code-point order).
pub open spec fn text_lt(a: Seq<char>, b: Seq<char>) -> bool
    decreases a.len(),
{
    if a.len() == 0 {
        b.len() > 0
    } else if b.len() == 0 {
        false
    } else if a[0] != b[0] {
        (a[0] as u32) < (b[0] as u32)
    } else {
        text_lt(a.drop_first(), b.drop_first())
    }
}

/// Imported themes are ordered by name, then by creator.
pub open spec fn entry_lt(a: CustomThemeView, b: CustomThemeView) -> bool {
    text_lt(a.name, b.name) || (a.name == b.name && text_lt(a.creator, b.creator))
}

/// `sorted` with `e` put before the first entry that sorts after it.
pub open spec fn insert_sorted(sorted: Seq<CustomThemeView>, e: CustomThemeView) -> Seq<CustomThemeView>
    decreases sorted.len(),
{
    if sorted.len() == 0 {
        seq![e]
    } else if entry_lt(e, sorted[0]) {
        seq![e] + sorted
    } else {
        seq![sorted[0]] + insert_sorted(sorted.drop_first(), e)
    }
}

/// The entries sorted by name, then creator, keeping the given order
/// among equal keys.
pub open spec fn sort_entries(s: Seq<CustomThemeView>) -> Seq<CustomThemeView>
    decreases s.len(),
{
    if s.len() == 0 {
        Seq::empty()
    } else {
        insert_sorted(sort_entries(s.drop_last()), s.last())
    }
}

/// The imported themes after each of `entries` is added in turn.
pub open spec fn upsert_all(customs: Seq<CustomThemeView>, entries: Seq<CustomThemeView>) -> Seq<CustomThemeView>
    decreases entries.len(),
{
    if entries.len() == 0 {
        customs
    } else {
        spec_upsert(upsert_all(customs, entries.drop_last()), entries.last())
    }
}

fn text_less(a: &str, b: &str) -> (r: bool)
    ensures
        r == text_lt(a@, b@),
{
    let x = crate::text::chars_of(a);
    let y = crate::text::chars_of(b);
    let mut i: usize = 0;
    assert(x@.skip(0) =~= x@);
    assert(y@.skip(0) =~= y@);
    while i < x.len() && i < y.len() && x[i] == y[i]
        invariant
            i <= x.len(),
            i <= y.len(),
            x@ == a@,
            y@ == b@,
            text_lt(a@, b@) == text_lt(x@.skip(i as int), y@.skip(i as int)),
        decreases x.len() - i,
    {
        assert(x@.skip(i as int).drop_first() =~= x@.skip(i + 1));
        assert(y@.skip(i as int).drop_first() =~= y@.skip(i + 1));
        i += 1;
    }
    if i == x.len() {
        i < y.len()
    } else if i == y.len() {
        false
    } else {
        assert(x@.skip(i as int)[0] == x[i as int]);
        assert(y@.skip(i as int)[0] == y[i as int]);
        (x[i] as u32) < (y[i] as u32)
    }
}

fn entry_less(a: &CustomThemeEntry, b: &CustomThemeEntry) -> (r: bool)
    ensures
        r == entry_lt(a.view(), b.view()),
{
    text_less(a.name.as_str(), b.name.as_str()) || (a.name == b.name && text_less(
        a.creator.as_str(),
        b.creator.as_str(),
    ))
}

proof fn lemma_insert_sorted_at(sorted: Seq<CustomThemeView>, e: CustomThemeView, p: int)
    requires
        0 <= p <= sorted.len(),
        forall|j: int| 0 <= j < p ==> !entry_lt(e, #[trigger] sorted[j]),
        p < sorted.len() ==> entry_lt(e, sorted[p]),
    ensures
        insert_sorted(sorted, e) == sorted.insert(p, e),
    decreases sorted.len(),
{
    if sorted.len() == 0 {
        assert(sorted.insert(p, e) =~= seq![e]);
    } else if p == 0 {
        assert(sorted.insert(0, e) =~= seq![e] + sorted);
    } else {
        let rest = sorted.drop_first();
        assert forall|j: int| 0 <= j < p - 1 implies !entry_lt(e, #[trigger] rest[j]) by {
            assert(rest[j] == sorted[j + 1]);
        }
        if p - 1 < rest.len() {
            assert(rest[p - 1] == sorted[p]);
        }
        assert(!entry_lt(e, sorted[0]));
        lemma_insert_sorted_at(rest, e, p - 1);
        assert(seq![sorted[0]] + rest.insert(p - 1, e) =~= sorted.insert(p, e));
    }
}

/// Sorts imported themes by name, then creator, keeping the given order
/// among equal keys.
pub fn sort_custom_themes(entries: Vec<CustomThemeEntry>) -> (r: Vec<CustomThemeEntry>)
    ensures
        customs_view(r@) == sort_entries(customs_view(entries@)),
{
    let ghost ev = customs_view(entries@);
    let mut sorted: Vec<CustomThemeEntry> = Vec::new();
    let mut rest = entries;
    let mut i: usize = 0;
    let n = rest.len();
    assert(ev.skip(0) =~= ev);
    while rest.len() > 0
        invariant
            i + rest.len() == n,
            n == ev.len(),
            customs_view(rest@) == ev.skip(i as int),
            customs_view(sorted@) == sort_entries(ev.take(i as int)),
        decreases rest.len(),
    {
        let ghost before_rest = customs_view(rest@);
        let e = rest.remove(0);
        proof {
            assert(e.view() == before_rest[0]);
            assert(before_rest[0] == ev[i as int]);
            assert(ev.take(i + 1).drop_last() =~= ev.take(i as int));
            assert(ev.take(i + 1).last() == ev[i as int]);
            assert(customs_view(rest@) =~= before_rest.subrange(1, before_rest.len() as int));
            assert(before_rest.subrange(1, before_rest.len() as int) =~= ev.skip(i + 1));
        }
        let ghost sv = customs_view(sorted@);
        let mut p: usize = 0;
        while p < sorted.len() && !entry_less(&e, &sorted[p])
            invariant
                p <= sorted.len(),
                sv == customs_view(sorted@),
                forall|j: int| 0 <= j < p ==> !entry_lt(e.view(), #[trigger] sv[j]),
            decreases sorted.len() - p,
        {
            p += 1;
        }
        proof {
            lemma_insert_sorted_at(sv, e.view(), p as int);
        }
        sorted.insert(p, e);
        assert(customs_view(sorted@) =~= sv.insert(p as int, e.view()));
        i += 1;
    }
    assert(ev.take(n as int) =~= ev);
    sorted
}

impl ThemeManager {
    /// Adds stored themes, sorted by name then creator, each replacing an
    /// imported theme with the same identifier.
    pub fn load_custom_themes(&mut self, entries: Vec<CustomThemeEntry>)
        requires
            old(self).wf(),
        ensures
            final(self).wf(),
            final(self).customs() == upsert_all(
                old(self).customs(),
                sort_entries(customs_view(entries@)),
            ),
            final(self).current_view() == old(self).current_view(),
    {
        let sorted = sort_custom_themes(entries);
        let ghost sv = customs_view(sorted@);
        let ghost start = self.customs();
        let mut rest = sorted;
        let n = rest.len();
        let mut i: usize = 0;
        assert(sv.skip(0) =~= sv);
        assert(sv.take(0) =~= Seq::<CustomThemeView>::empty());
        while rest.len() > 0
            invariant
                i + rest.len() == n,
                n == sv.len(),
                self.wf(),
                customs_view(rest@) == sv.skip(i as int),
                self.customs() == upsert_all(start, sv.take(i as int)),
                self.current_view() == old(self).current_view(),
            decreases rest.len(),
        {
            let ghost before_rest = customs_view(rest@);
            let e = rest.remove(0);
            proof {
                assert(e.view() == before_rest[0]);
                assert(before_rest[0] == sv[i as int]);
                assert(sv.take(i + 1).drop_last() =~= sv.take(i as int));
                assert(sv.take(i + 1).last() == sv[i as int]);
                assert(customs_view(rest@) =~= before_rest.subrange(1, before_rest.len() as int));
                assert(before_rest.subrange(1, before_rest.len() as int) =~= sv.skip(i + 1));
            }
            self.upsert_custom_theme(e);
            i += 1;
        }
        assert(sv.take(n as int) =~= sv);
    }
}

impl Default for ThemeManager {
    /// The built-in dark theme active, nothing imported.
    fn default() -> (r: Self)
        ensures
            r.wf(),
            r.current_view() == velotype_id(),
            r.customs() == Seq::<CustomThemeView>::empty(),
    {
        ThemeManager::new()
    }
}

proof fn lemma_text_lt_irreflexive(a: Seq<char>)
    ensures
        !text_lt(a, a),
    decreases a.len(),
{
    if a.len() > 0 {
        lemma_text_lt_irreflexive(a.drop_first());
    }
}

proof fn lemma_text_lt_transitive(a: Seq<char>, b: Seq<char>, c: Seq<char>)
    requires
        text_lt(a, b),
        text_lt(b, c),
    ensures
        text_lt(a, c),
    decreases a.len(),
{
    if a.len() > 0 && b.len() > 0 && c.len() > 0 && a[0] == b[0] && b[0] == c[0] {
        lemma_text_lt_transitive(a.drop_first(), b.drop_first(), c.drop_first());
    }
}

proof fn lemma_text_lt_asymmetric(a: Seq<char>, b: Seq<char>)
    requires
        text_lt(a, b),
    ensures
        !text_lt(b, a),
    decreases a.len(),
{
    if a.len() > 0 && b.len() > 0 && a[0] == b[0] {
        lemma_text_lt_asymmetric(a.drop_first(), b.drop_first());
    }
}

proof fn lemma_entry_lt_order(a: CustomThemeView, b: CustomThemeView, c: CustomThemeView)
    ensures
        entry_lt(a, b) ==> !entry_lt(b, a),
        entry_lt(a, b) && entry_lt(b, c) ==> entry_lt(a, c),
{
    lemma_text_lt_irreflexive(a.name);
    lemma_text_lt_irreflexive(b.name);
    if text_lt(a.name, b.name) {
        lemma_text_lt_asymmetric(a.name, b.name);
    }
    if text_lt(a.creator, b.creator) {
        lemma_text_lt_asymmetric(a.creator, b.creator);
    }
    if entry_lt(a, b) && entry_lt(b, c) {
        if text_lt(a.name, b.name) && text_lt(b.name, c.name) {
            lemma_text_lt_transitive(a.name, b.name, c.name);
        }
        if text_lt(a.creator, b.creator) && text_lt(b.creator, c.creator) {
            lemma_text_lt_transitive(a.creator, b.creator, c.creator);
        }
    }
}

/// No entry sorts before an earlier one.
pub open spec fn is_sorted_entries(s: Seq<CustomThemeView>) -> bool {
    forall|i: int, j: int| 0 <= i < j < s.len() ==> !entry_lt(#[trigger] s[j], #[trigger] s[i])
}

proof fn lemma_insert_sorted_keeps_order(sorted: Seq<CustomThemeView>, e: CustomThemeView)
    requires
        is_sorted_entries(sorted),
    ensures
        is_sorted_entries(insert_sorted(sorted, e)),
        insert_sorted(sorted, e).len() == sorted.len() + 1,
    decreases sorted.len(),
{
    if sorted.len() == 0 {
    } else if entry_lt(e, sorted[0]) {
        let r = seq![e] + sorted;
        assert forall|i: int, j: int| 0 <= i < j < r.len() implies !entry_lt(
            #[trigger] r[j],
            #[trigger] r[i],
        ) by {
            if i == 0 {
                assert(r[j] == sorted[j - 1]);
                lemma_entry_lt_order(sorted[j - 1], e, sorted[0]);
                if j - 1 > 0 {
                    lemma_entry_lt_order(sorted[j - 1], sorted[0], e);
                    assert(!entry_lt(sorted[j - 1], sorted[0]));
                    if entry_lt(sorted[j - 1], e) {
                        lemma_entry_lt_order(sorted[j - 1], e, sorted[0]);
                    }
                }
            } else {
                assert(r[i] == sorted[i - 1] && r[j] == sorted[j - 1]);
            }
        }
    } else {
        let rest = sorted.drop_first();
        assert forall|i: int, j: int| 0 <= i < j < rest.len() implies !entry_lt(
            #[trigger] rest[j],
            #[trigger] rest[i],
        ) by {
            assert(rest[i] == sorted[i + 1] && rest[j] == sorted[j + 1]);
        }
        lemma_insert_sorted_keeps_order(rest, e);
        let tail = insert_sorted(rest, e);
        let r = seq![sorted[0]] + tail;
        assert forall|j: int| 0 <= j < tail.len() implies !entry_lt(#[trigger] tail[j], sorted[0]) by {
            lemma_insert_sorted_members(rest, e, j);
            if tail[j] != e {
                let k = choose|k: int| 0 <= k < rest.len() && rest[k] == tail[j];
                assert(rest[k] == sorted[k + 1]);
            }
        }
        assert forall|i: int, j: int| 0 <= i < j < r.len() implies !entry_lt(
            #[trigger] r[j],
            #[trigger] r[i],
        ) by {
            if i == 0 {
                assert(r[j] == tail[j - 1]);
            } else {
                assert(r[i] == tail[i - 1] && r[j] == tail[j - 1]);
            }
        }
    }
}

proof fn lemma_insert_sorted_members(sorted: Seq<CustomThemeView>, e: CustomThemeView, j: int)
    requires
        0 <= j < insert_sorted(sorted, e).len(),
    ensures
        insert_sorted(sorted, e).len() == sorted.len() + 1,
        insert_sorted(sorted, e)[j] == e || exists|k: int|
            0 <= k < sorted.len() && sorted[k] == insert_sorted(sorted, e)[j],
    decreases sorted.len(),
{
    let r = insert_sorted(sorted, e);
    if sorted.len() == 0 {
    } else if entry_lt(e, sorted[0]) {
        if j > 0 {
            assert(r[j] == sorted[j - 1]);
        }
    } else {
        let rest = sorted.drop_first();
        if j > 0 {
            lemma_insert_sorted_members(rest, e, j - 1);
            assert(r[j] == insert_sorted(rest, e)[j - 1]);
            if insert_sorted(rest, e)[j - 1] != e {
                let k = choose|k: int| 0 <= k < rest.len() && rest[k] == insert_sorted(rest, e)[j - 1];
                assert(sorted[k + 1] == rest[k]);
            }
        } else {
            assert(r[0] == sorted[0]);
        }
        lemma_insert_sorted_members(rest, e, 0);
    }
}

/// Stored themes are listed in order: no theme sorts before one listed
/// earlier (by name, then creator).
pub proof fn law_sorted_themes_are_in_order(s: Seq<CustomThemeView>)
    ensures
        is_sorted_entries(sort_entries(s)),
        sort_entries(s).len() == s.len(),
    decreases s.len(),
{
    if s.len() > 0 {
        law_sorted_themes_are_in_order(s.drop_last());
        lemma_insert_sorted_keeps_order(sort_entries(s.drop_last()), s.last());
    }
}

proof fn lemma_upsert_unique(customs: Seq<CustomThemeView>, entry: CustomThemeView)
    requires
        unique_ids(customs),
    ensures
        unique_ids(spec_upsert(customs, entry)),
{
    match custom_index(customs, entry.id) {
        Some(i) => {
            let u = customs.update(i, entry);
            assert forall|a: int, b: int|
                0 <= a < u.len() && 0 <= b < u.len() && a != b implies #[trigger] u[a].id
                != #[trigger] u[b].id by {
                if a == i {
                    assert(customs[b].id != customs[i].id);
                } else if b == i {
                    assert(customs[a].id != customs[i].id);
                } else {
                    assert(customs[a].id != customs[b].id);
                }
            }
        },
        None => {
            let u = customs.push(entry);
            assert forall|a: int, b: int|
                0 <= a < u.len() && 0 <= b < u.len() && a != b implies #[trigger] u[a].id
                != #[trigger] u[b].id by {
                if a == customs.len() {
                    assert(customs[b].id != entry.id);
                } else if b == customs.len() {
                    assert(customs[a].id != entry.id);
                } else {
                    assert(customs[a].id != customs[b].id);
                }
            }
        },
    }
}

/// A theme that was just imported can be activated by its identifier.
pub proof fn law_upserted_theme_is_known(customs: Seq<CustomThemeView>, entry: CustomThemeView)
    ensures
        is_known_theme(spec_upsert(customs, entry), entry.id),
{
    let u = spec_upsert(customs, entry);
    match custom_index(customs, entry.id) {
        Some(i) => {
            assert(u[i].id == entry.id);
        },
        None => {
            assert(u[customs.len() as int].id == entry.id);
        },
    }
}

/// Importing a theme again under the same identifier replaces it: the
/// number of imported themes does not grow.
pub proof fn law_upsert_same_id_keeps_count(customs: Seq<CustomThemeView>, a: CustomThemeView, b: CustomThemeView)
    requires
        a.id == b.id,
    ensures
        spec_upsert(spec_upsert(customs, a), b).len() == spec_upsert(customs, a).len(),
{
    let u = spec_upsert(customs, a);
    law_upserted_theme_is_known(customs, a);
    if a.id == velotype_id() || a.id == velotype_light_id() {
        match custom_index(customs, a.id) {
            Some(i) => {
                assert(u[i].id == a.id);
            },
            None => {
                assert(u[customs.len() as int].id == a.id);
            },
        }
    }
}

// ---------------------------------------------------------------------------
// Reading an imported theme pack
// ---------------------------------------------------------------------------
/// Why a theme pack was refused.
#[derive(Debug)]
pub enum ThemeConfigError {
    /// The pack is not a JSON object.
    NotAnObject,
    /// A required field is missing.
    MissingField(String),
    /// A required field is not a non-empty string.
    NotANonEmptyString(String),
    /// The `theme` field is present but not an object.
    ThemeNotAnObject,
    /// The theme, laid over the defaults, holds a value of another kind
    /// than the default there; the theme is named.
    InvalidTheme(String),
}

/// The spec form of a `ThemeConfigError`.
pub enum ThemeConfigErrorView {
    NotAnObject,
    MissingField(Seq<char>),
    NotANonEmptyString(Seq<char>),
    ThemeNotAnObject,
    InvalidTheme(Seq<char>),
}

impl ThemeConfigError {
    pub open spec fn view(&self) -> ThemeConfigErrorView {
        match self {
            ThemeConfigError::NotAnObject => ThemeConfigErrorView::NotAnObject,
            ThemeConfigError::MissingField(k) => ThemeConfigErrorView::MissingField(k@),
            ThemeConfigError::NotANonEmptyString(k) => ThemeConfigErrorView::NotANonEmptyString(k@),
            ThemeConfigError::ThemeNotAnObject => ThemeConfigErrorView::ThemeNotAnObject,
            ThemeConfigError::InvalidTheme(n) => ThemeConfigErrorView::InvalidTheme(n@),
        }
    }

    /// The message shown to the user.
    pub fn message(&self) -> (r: String)
        ensures
            r@ == (match self.view() {
                ThemeConfigErrorView::NotAnObject => "theme config must be a JSON object"@,
                ThemeConfigErrorView::MissingField(k) => "missing required field '"@ + k + "'"@,
                ThemeConfigErrorView::NotANonEmptyString(k) => "field '"@ + k
                    + "' must be a non-empty string"@,
                ThemeConfigErrorView::ThemeNotAnObject => "field 'theme' must be a JSON object when present"@,
                ThemeConfigErrorView::InvalidTheme(n) => "failed to construct custom theme '"@ + n
                    + "'"@,
            }),
    {
        match self {
            ThemeConfigError::NotAnObject => "theme config must be a JSON object".to_owned(),
            ThemeConfigError::MissingField(k) => {
                let mut r = "missing required field '".to_owned();
                crate::text::append_str(&mut r, k.as_str());
                crate::text::append_str(&mut r, "'");
                r
            },
            ThemeConfigError::NotANonEmptyString(k) => {
                let mut r = "field '".to_owned();
                crate::text::append_str(&mut r, k.as_str());
                crate::text::append_str(&mut r, "' must be a non-empty string");
                r
            },
            ThemeConfigError::ThemeNotAnObject => "field 'theme' must be a JSON object when present".to_owned(),
            ThemeConfigError::InvalidTheme(n) => {
                let mut r = "failed to construct custom theme '".to_owned();
                crate::text::append_str(&mut r, n.as_str());
                crate::text::append_str(&mut r, "'");
                r
            },
        }
    }
}

/// The trimmed text of the string field `key`, which must be present and
/// not blank.
pub open spec fn spec_required_string(entries: Seq<(Seq<char>, JsonView)>, key: Seq<char>) -> Result<Seq<char>, ThemeConfigErrorView> {
    match entry_get(entries, key) {
        None => Err(ThemeConfigErrorView::MissingField(key)),
        Some(JsonView::Str(t)) => if trim(t).len() > 0 {
            Ok(trim(t))
        } else {
            Err(ThemeConfigErrorView::NotANonEmptyString(key))
        },
        Some(_) => Err(ThemeConfigErrorView::NotANonEmptyString(key)),
    }
}

pub fn required_string(object: &Vec<(String, JsonValue)>, key: &str) -> (r: Result<String, ThemeConfigError>)
    ensures
        match (r, spec_required_string(entries_view(object@), key@)) {
            (Ok(s), Ok(t)) => s@ == t,
            (Err(e), Err(f)) => e.view() == f,
            _ => false,
        },
{
    match find_entry(object, key) {
        None => Err(ThemeConfigError::MissingField(key.to_owned())),
        Some(i) => {
            assert(entries_view(object@)[i as int].1 == object@[i as int].1@);
            match &object[i].1 {
                JsonValue::Str(t) => {
                    let trimmed = crate::text::trim_chars(&crate::text::chars_of(t.as_str()));
                    if trimmed.len() > 0 {
                        Ok(crate::text::string_of(&trimmed))
                    } else {
                        Err(ThemeConfigError::NotANonEmptyString(key.to_owned()))
                    }
                },
                _ => Err(ThemeConfigError::NotANonEmptyString(key.to_owned())),
            }
        },
    }
}

/// An imported theme pack, read: its entry, the full theme as JSON (the
/// defaults with the pack's values laid over them), and the pack as it is
/// stored.
pub struct ImportedTheme {
    pub entry: CustomThemeEntry,
    pub theme: JsonValue,
    pub normalized: JsonValue,
}

/// The optional metadata fields copied into the stored pack, in order.
pub open spec fn copy_optional(object: Seq<(Seq<char>, JsonView)>, out: Seq<(Seq<char>, JsonView)>, key: Seq<char>) -> Seq<(Seq<char>, JsonView)> {
    match entry_get(object, key) {
        Some(v) => entry_insert(out, key, v),
        None => out,
    }
}

/// The theme part of a pack, `raw`, limited to the keys of the defaults
/// and without `name`.
pub open spec fn spec_theme_patch(raw: JsonView, defaults: JsonView) -> JsonView {
    match spec_filter(raw, defaults) {
        JsonView::Object(pe) => JsonView::Object(entry_remove(pe, "name"@)),
        other => other,
    }
}

/// The full theme: `patch` laid over the defaults, named `name`.
pub open spec fn spec_theme_json(defaults: JsonView, patch: JsonView, name: Seq<char>) -> JsonView {
    match spec_merge(defaults, patch) {
        JsonView::Object(me) => JsonView::Object(entry_insert(me, "name"@, JsonView::Str(name))),
        other => other,
    }
}

/// The pack as stored: `name`, `creator`, the optional metadata given, and
/// the theme patch unless it is an empty object.
pub open spec fn spec_stored_pack(object: Seq<(Seq<char>, JsonView)>, name: Seq<char>, creator: Seq<char>, patch: JsonView) -> JsonView {
    let n0 = entry_insert(
        entry_insert(Seq::empty(), "name"@, JsonView::Str(name)),
        "creator"@,
        JsonView::Str(creator),
    );
    let n1 = copy_optional(
        object,
        copy_optional(
            object,
            copy_optional(object, copy_optional(object, n0, "description"@), "version"@),
            "homepage"@,
        ),
        "license"@,
    );
    if patch matches JsonView::Object(pe) && pe.len() == 0 {
        JsonView::Object(n1)
    } else {
        JsonView::Object(entry_insert(n1, "theme"@, patch))
    }
}

/// The `theme` field of a pack, an empty object when absent.
pub open spec fn raw_theme_field(object: Seq<(Seq<char>, JsonView)>) -> JsonView {
    match entry_get(object, "theme"@) {
        Some(t) => t,
        None => JsonView::Object(Seq::empty()),
    }
}

/// What a theme pack `value` gives, over the default theme as JSON: the
/// pack with empty values dropped must be an object with non-blank `name`
/// and `creator`, and a `theme` object if any. The entry is named after the
/// pack; the theme is the limited patch laid over the defaults, and must
/// have the kinds of the defaults; the stored pack is described by
/// `spec_stored_pack`.
pub open spec fn spec_custom_theme_from_value(value: JsonView, defaults: JsonView) -> Result<(CustomThemeView, JsonView, JsonView), ThemeConfigErrorView> {
    match spec_prune(value).0 {
        JsonView::Object(o0) => {
            let object = prune_entries(o0);
            match spec_required_string(object, "name"@) {
                Err(e) => Err(e),
                Ok(name) => match spec_required_string(object, "creator"@) {
                    Err(e) => Err(e),
                    Ok(creator) => if !(raw_theme_field(object) is Object) {
                        Err(ThemeConfigErrorView::ThemeNotAnObject)
                    } else {
                        let patch = spec_theme_patch(raw_theme_field(object), defaults);
                        if !kinds_match(spec_theme_json(defaults, patch, name), defaults) {
                            Err(ThemeConfigErrorView::InvalidTheme(name))
                        } else {
                        Ok(
                            (
                                CustomThemeView {
                                    id: spec_custom_theme_id(name, creator),
                                    name,
                                    creator,
                                },
                                spec_theme_json(defaults, patch, name),
                                spec_stored_pack(object, name, creator, patch),
                            ),
                        )
                        }
                    },
                },
            }
        },
        _ => Err(ThemeConfigErrorView::NotAnObject),
    }
}

fn copy_optional_exec(object: &Vec<(String, JsonValue)>, out: &mut Vec<(String, JsonValue)>, key: &str)
    ensures
        entries_view(final(out)@) == copy_optional(entries_view(object@), entries_view(old(out)@), key@),
{
    match find_entry(object, key) {
        Some(i) => {
            assert(entries_view(object@)[i as int].1 == object@[i as int].1@);
            let v = deep_copy(&object[i].1);
            insert_entry(out, key, v);
        },
        None => {},
    }
}

fn theme_patch(raw: &JsonValue, defaults: &JsonValue) -> (r: JsonValue)
    ensures
        r@ == spec_theme_patch(raw@, defaults@),
{
    let mut patch = filter_json_by_schema(raw, defaults);
    match &mut patch {
        JsonValue::Object(pe) => {
            proof {
                lemma_object_view(*pe);
            }
            remove_entry(pe, "name");
            proof {
                lemma_object_view(*pe);
            }
        },
        _ => {},
    }
    patch
}

fn theme_json(defaults: &JsonValue, patch: &JsonValue, name: &String) -> (r: JsonValue)
    ensures
        r@ == spec_theme_json(defaults@, patch@, name@),
{
    let mut theme = merged(defaults, patch);
    match &mut theme {
        JsonValue::Object(me) => {
            proof {
                lemma_object_view(*me);
            }
            insert_entry(me, "name", JsonValue::Str(name.clone()));
            proof {
                lemma_object_view(*me);
            }
        },
        _ => {},
    }
    theme
}

fn stored_pack(object: &Vec<(String, JsonValue)>, name: &String, creator: &String, patch: JsonValue) -> (r: JsonValue)
    ensures
        r@ == spec_stored_pack(entries_view(object@), name@, creator@, patch@),
{
    let patch_is_empty_object = match &patch {
        JsonValue::Object(pe) => {
            proof {
                lemma_object_view(*pe);
            }
            pe.len() == 0
        },
        _ => false,
    };
    let mut normalized: Vec<(String, JsonValue)> = Vec::new();
    assert(entries_view(normalized@) =~= Seq::<(Seq<char>, JsonView)>::empty());
    insert_entry(&mut normalized, "name", JsonValue::Str(name.clone()));
    insert_entry(&mut normalized, "creator", JsonValue::Str(creator.clone()));
    copy_optional_exec(object, &mut normalized, "description");
    copy_optional_exec(object, &mut normalized, "version");
    copy_optional_exec(object, &mut normalized, "homepage");
    copy_optional_exec(object, &mut normalized, "license");
    if !patch_is_empty_object {
        insert_entry(&mut normalized, "theme", patch);
    }
    proof {
        lemma_object_view(normalized);
    }
    JsonValue::Object(normalized)
}

fn raw_theme(object: &Vec<(String, JsonValue)>) -> (r: JsonValue)
    ensures
        r@ == raw_theme_field(entries_view(object@)),
{
    match find_entry(object, "theme") {
        Some(i) => {
            assert(entries_view(object@)[i as int].1 == object@[i as int].1@);
            deep_copy(&object[i].1)
        },
        None => {
            let empty: Vec<(String, JsonValue)> = Vec::new();
            proof {
                lemma_object_view(empty);
                assert(entries_view(empty@) =~= Seq::<(Seq<char>, JsonView)>::empty());
            }
            JsonValue::Object(empty)
        },
    }
}

/// The pack with empty values dropped, as entries, if it is an object.
fn pruned_object(value: &JsonValue) -> (r: Option<Vec<(String, JsonValue)>>)
    ensures
        match (r, spec_prune(value@).0) {
            (Some(o), JsonView::Object(o0)) => entries_view(o@) == prune_entries(o0),
            (None, JsonView::Object(_)) => false,
            (None, _) => true,
            _ => false,
        },
{
    let (pruned, _) = prune(value);
    let o0 = match pruned {
        JsonValue::Object(o) => o,
        _ => return None,
    };
    proof {
        lemma_object_view(o0);
    }
    let (o1, _) = prune(&JsonValue::Object(o0));
    match o1 {
        JsonValue::Object(o) => {
            proof {
                lemma_object_view(o);
            }
            Some(o)
        },
        _ => None,
    }
}

/// Reads a theme pack over the default theme given as JSON.
#[verifier::spinoff_prover]
#[verifier::rlimit(60)]
pub fn custom_theme_from_value(value: JsonValue, defaults: &JsonValue) -> (r: Result<ImportedTheme, ThemeConfigError>)
    ensures
        match (r, spec_custom_theme_from_value(value@, defaults@)) {
            (Ok(t), Ok((e, theme, normalized))) => t.entry.view() == e && t.theme@ == theme
                && t.normalized@ == normalized,
            (Err(e), Err(f)) => e.view() == f,
            _ => false,
        },
{
    let object = match pruned_object(&value) {
        None => return Err(ThemeConfigError::NotAnObject),
        Some(o) => o,
    };
    let name = match required_string(&object, "name") {
        Err(e) => return Err(e),
        Ok(n) => n,
    };
    let creator = match required_string(&object, "creator") {
        Err(e) => return Err(e),
        Ok(c) => c,
    };
    let raw_patch = raw_theme(&object);
    match &raw_patch {
        JsonValue::Object(_) => {},
        _ => return Err(ThemeConfigError::ThemeNotAnObject),
    }
    let patch = theme_patch(&raw_patch, defaults);
    let theme = theme_json(defaults, &patch, &name);
    if !json_kinds_match(&theme, defaults) {
        return Err(ThemeConfigError::InvalidTheme(name));
    }
    let id = custom_theme_id(name.as_str(), creator.as_str());
    let normalized = stored_pack(&object, &name, &creator, patch);
    Ok(ImportedTheme { entry: CustomThemeEntry { id, name, creator }, theme, normalized })
}

} // verus!
