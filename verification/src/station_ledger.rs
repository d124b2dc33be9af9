//! Station equipment ledger: equipment categories and their names, and the
//! list of items with its add, edit and delete forms.

use vstd::prelude::*;
use crate::text::{decimal, decimal_string, opt_text, trim, trim_white_space};

verus! {

/// Kinds of station equipment.
#[derive(Clone, Copy, Debug, PartialEq, Eq, Structural)]
pub enum EquipmentCategory {
    Transceiver,
    Antenna,
    Amplifier,
    Tuner,
    PowerSupply,
    Keyer,
    Other,
}

/// Translation key of a category's name.
pub open spec fn category_key(cat: EquipmentCategory) -> Seq<char> {
    match cat {
        EquipmentCategory::Transceiver => "ledger.cat_transceiver"@,
        EquipmentCategory::Antenna => "ledger.cat_antenna"@,
        EquipmentCategory::Amplifier => "ledger.cat_amplifier"@,
        EquipmentCategory::Tuner => "ledger.cat_tuner"@,
        EquipmentCategory::PowerSupply => "ledger.cat_powersupply"@,
        EquipmentCategory::Keyer => "ledger.cat_keyer"@,
        EquipmentCategory::Other => "ledger.cat_other"@,
    }
}

/// The name of `cat` in the user's language: the translation (by
/// `translate`) of the category's key.
pub fn category_label<F: Fn(&str) -> String>(cat: &EquipmentCategory, translate: F) -> (s: String)
    requires
        forall|k: &str| #[trigger] translate.requires((k,)),
    ensures
        exists|k: &str|
            #![trigger translate.ensures((k,), s)]
            k@ == category_key(*cat) && translate.ensures((k,), s),
{
    let key = match cat {
        EquipmentCategory::Transceiver => "ledger.cat_transceiver",
        EquipmentCategory::Antenna => "ledger.cat_antenna",
        EquipmentCategory::Amplifier => "ledger.cat_amplifier",
        EquipmentCategory::Tuner => "ledger.cat_tuner",
        EquipmentCategory::PowerSupply => "ledger.cat_powersupply",
        EquipmentCategory::Keyer => "ledger.cat_keyer",
        EquipmentCategory::Other => "ledger.cat_other",
    };
    let s = translate(key);
    assert(key@ == category_key(*cat) && translate.ensures((key,), s));
    s
}


/// One item of station equipment. Optional texts are absent rather than
/// empty.
pub struct EquipmentItem {
    pub id: String,
    pub category: EquipmentCategory,
    pub manufacturer: String,
    pub model: String,
    pub serial_number: Option<String>,
    pub purchase_date: Option<String>,
    pub notes: Option<String>,
}

/// An equipment item as plain values.
#[verifier::ext_equal]
pub struct ItemView {
    pub id: Seq<char>,
    pub category: EquipmentCategory,
    pub manufacturer: Seq<char>,
    pub model: Seq<char>,
    pub serial_number: Option<Seq<char>>,
    pub purchase_date: Option<Seq<char>>,
    pub notes: Option<Seq<char>>,
}

impl View for EquipmentItem {
    type V = ItemView;

    open spec fn view(&self) -> ItemView {
        ItemView {
            id: self.id@,
            category: self.category,
            manufacturer: self.manufacturer@,
            model: self.model@,
            serial_number: opt_text(self.serial_number),
            purchase_date: opt_text(self.purchase_date),
            notes: opt_text(self.notes),
        }
    }
}

/// The items of a list, as plain values.
pub open spec fn item_views(v: Seq<EquipmentItem>) -> Seq<ItemView> {
    v.map_values(|i: EquipmentItem| i@)
}

/// The text fields of an add or edit form.
pub struct EquipmentForm {
    pub category: EquipmentCategory,
    pub manufacturer: String,
    pub model: String,
    pub serial_number: String,
    pub purchase_date: String,
    pub notes: String,
}

/// How a form field is stored: trimmed, and absent when nothing is left.
pub open spec fn stored_text(field: Seq<char>) -> Option<Seq<char>> {
    if trim_white_space(field).len() == 0 {
        None
    } else {
        Some(trim_white_space(field))
    }
}

/// The id a new item gets in a list of `n` items: `eq-` and `n + 1`.
pub open spec fn new_item_id(n: nat) -> Seq<char> {
    "eq-"@ + decimal(n + 1)
}

/// The item the add form makes, as the `n + 1`-th of the list, bought
/// `today`.
pub open spec fn added_item(f: EquipmentForm, n: nat, today: Seq<char>) -> ItemView {
    ItemView {
        id: new_item_id(n),
        category: f.category,
        manufacturer: trim_white_space(f.manufacturer@),
        model: trim_white_space(f.model@),
        serial_number: stored_text(f.serial_number@),
        purchase_date: Some(today),
        notes: stored_text(f.notes@),
    }
}

/// Item `old` after the edit form was saved over it: the id stays, the
/// rest comes from the form.
pub open spec fn edited_item(old: ItemView, f: EquipmentForm) -> ItemView {
    ItemView {
        id: old.id,
        category: f.category,
        manufacturer: trim_white_space(f.manufacturer@),
        model: trim_white_space(f.model@),
        serial_number: stored_text(f.serial_number@),
        purchase_date: stored_text(f.purchase_date@),
        notes: stored_text(f.notes@),
    }
}

/// The position of the first item with id `id`.
pub open spec fn first_with_id(items: Seq<EquipmentItem>, id: Seq<char>, i: int) -> bool {
    0 <= i < items.len() && items[i].id@ == id && forall|j: int| 0 <= j < i ==> (#[trigger] items[j]).id@ != id
}

/// The equipment list with its forms: the add form, the edit form and the
/// id of the item being edited.
pub struct EquipmentLedger {
    pub items: Vec<EquipmentItem>,
    pub editing_id: Option<String>,
    pub new_form: EquipmentForm,
    pub edit_form: EquipmentForm,
}

fn stored(field: &str) -> (r: Option<String>)
    ensures
        opt_text(r) == stored_text(field@),
{
    let t = trim(field);
    if t.is_empty() {
        None
    } else {
        Some(t.to_string())
    }
}

fn copy_opt(t: &Option<String>) -> (s: String)
    ensures
        s@ == match opt_text(*t) {
            Some(v) => v,
            None => Seq::empty(),
        },
{
    match t {
        Some(v) => v.clone(),
        None => String::new(),
    }
}

impl EquipmentLedger {
    /// Adds the item on the add form, unless its model is blank: it gets
    /// the next id, today's date as purchase date and the trimmed texts;
    /// the model, serial number and notes of the form are then cleared.
    /// Returns whether an item was added.
    pub fn add_from_form(&mut self, today: &str) -> (added: bool)
        requires
            old(self).items@.len() < usize::MAX,
        ensures
            added == (trim_white_space(old(self).new_form.model@).len() > 0),
            !added ==> item_views(final(self).items@) == item_views(old(self).items@),
            !added ==> final(self).new_form == old(self).new_form,
            added ==> {
                &&& item_views(final(self).items@) == item_views(old(self).items@).push(
                    added_item(old(self).new_form, old(self).items@.len(), today@),
                )
                &&& final(self).new_form.category == old(self).new_form.category
                &&& final(self).new_form.manufacturer == old(self).new_form.manufacturer
                &&& final(self).new_form.purchase_date == old(self).new_form.purchase_date
                &&& final(self).new_form.model@.len() == 0
                &&& final(self).new_form.serial_number@.len() == 0
                &&& final(self).new_form.notes@.len() == 0
            },
            final(self).editing_id == old(self).editing_id,
            final(self).edit_form == old(self).edit_form,
    {
        let model = trim(self.new_form.model.as_str());
        if model.is_empty() {
            return false;
        }
        let n: usize = self.items.len();
        let mut id = String::from_str("eq-");
        let digits = decimal_string((n as u64) + 1);
        id.append(digits.as_str());
        let item = EquipmentItem {
            id,
            category: self.new_form.category,
            manufacturer: trim(self.new_form.manufacturer.as_str()).to_string(),
            model: model.to_string(),
            serial_number: stored(self.new_form.serial_number.as_str()),
            purchase_date: Some(today.to_string()),
            notes: stored(self.new_form.notes.as_str()),
        };
        assert(item@ =~= added_item(old(self).new_form, n as nat, today@));
        self.items.push(item);
        assert(item_views(self.items@) =~= item_views(old(self).items@).push(
            added_item(old(self).new_form, n as nat, today@),
        ));
        self.new_form.model = String::new();
        self.new_form.serial_number = String::new();
        self.new_form.notes = String::new();
        true
    }

    /// Puts item `i` on the edit form and marks it as the one being edited;
    /// absent texts show as empty fields.
    pub fn start_edit(&mut self, i: usize)
        requires
            i < old(self).items@.len(),
        ensures
            item_views(final(self).items@) == item_views(old(self).items@),
            final(self).new_form == old(self).new_form,
            final(self).editing_id matches Some(e) && e@ == old(self).items@[i as int].id@,
            final(self).edit_form.category == old(self).items@[i as int].category,
            final(self).edit_form.manufacturer@ == old(self).items@[i as int].manufacturer@,
            final(self).edit_form.model@ == old(self).items@[i as int].model@,
            Some(final(self).edit_form.serial_number@) == opt_text(old(self).items@[i as int].serial_number)
                || (final(self).edit_form.serial_number@.len() == 0 && old(self).items@[i as int].serial_number is None),
            Some(final(self).edit_form.purchase_date@) == opt_text(old(self).items@[i as int].purchase_date)
                || (final(self).edit_form.purchase_date@.len() == 0 && old(self).items@[i as int].purchase_date is None),
            Some(final(self).edit_form.notes@) == opt_text(old(self).items@[i as int].notes)
                || (final(self).edit_form.notes@.len() == 0 && old(self).items@[i as int].notes is None),
    {
        let item = &self.items[i];
        let form = EquipmentForm {
            category: item.category,
            manufacturer: item.manufacturer.clone(),
            model: item.model.clone(),
            serial_number: copy_opt(&item.serial_number),
            purchase_date: copy_opt(&item.purchase_date),
            notes: copy_opt(&item.notes),
        };
        let id = item.id.clone();
        self.editing_id = Some(id);
        self.edit_form = form;
    }

    /// Saves the edit form over the first item with id `id`, if there is
    /// one, and ends the editing.
    pub fn save_edited(&mut self, id: &str)
        ensures
            final(self).editing_id is None,
            final(self).new_form == old(self).new_form,
            final(self).edit_form == old(self).edit_form,
            (exists|i: int| first_with_id(old(self).items@, id@, i)) ==> (exists|i: int|
                first_with_id(old(self).items@, id@, i) && item_views(final(self).items@) == item_views(
                    old(self).items@,
                ).update(i, edited_item(old(self).items@[i]@, old(self).edit_form))),
            !(exists|i: int| first_with_id(old(self).items@, id@, i)) ==> item_views(final(self).items@)
                == item_views(old(self).items@),
    {
        let mut i: usize = 0;
        while i < self.items.len()
            invariant
                self.items@ == old(self).items@,
                self.new_form == old(self).new_form,
                self.edit_form == old(self).edit_form,
                i <= self.items@.len(),
                forall|j: int| 0 <= j < i ==> (#[trigger] self.items@[j]).id@ != id@,
            decreases self.items@.len() - i,
        {
            if crate::text::same_text(self.items[i].id.as_str(), id) {
                let f = &self.edit_form;
                let item = EquipmentItem {
                    id: self.items[i].id.clone(),
                    category: f.category,
                    manufacturer: trim(f.manufacturer.as_str()).to_string(),
                    model: trim(f.model.as_str()).to_string(),
                    serial_number: stored(f.serial_number.as_str()),
                    purchase_date: stored(f.purchase_date.as_str()),
                    notes: stored(f.notes.as_str()),
                };
                assert(item@ =~= edited_item(old(self).items@[i as int]@, old(self).edit_form));
                assert(first_with_id(old(self).items@, id@, i as int));
                self.items.set(i, item);
                assert(item_views(self.items@) =~= item_views(old(self).items@).update(
                    i as int,
                    edited_item(old(self).items@[i as int]@, old(self).edit_form),
                ));
                self.editing_id = None;
                return;
            }
            i = i + 1;
        }
        self.editing_id = None;
    }

    /// Deletes every item with id `id`; when that id was being edited, the
    /// editing ends.
    pub fn delete(&mut self, id: &str)
        ensures
            item_views(final(self).items@) == item_views(old(self).items@).filter(|v: ItemView| v.id != id@),
            final(self).new_form == old(self).new_form,
            final(self).edit_form == old(self).edit_form,
            (old(self).editing_id matches Some(e) && e@ == id@) ==> final(self).editing_id is None,
            !(old(self).editing_id matches Some(e) && e@ == id@) ==> final(self).editing_id == old(self).editing_id,
    {
        let ghost src = item_views(self.items@);
        let mut kept: Vec<EquipmentItem> = Vec::new();
        let mut i: usize = 0;
        while self.items.len() > 0
            invariant
                self.new_form == old(self).new_form,
                self.edit_form == old(self).edit_form,
                self.editing_id == old(self).editing_id,
                src == item_views(old(self).items@),
                0 <= i <= src.len(),
                src.len() == old(self).items.len(),
                item_views(self.items@) == src.skip(i as int),
                item_views(kept@) == src.take(i as int).filter(|v: ItemView| v.id != id@),
            decreases self.items@.len(),
        {
            assert(item_views(self.items@).len() == self.items@.len());
            assert(i < src.len());
            let ghost before_items = self.items@;
            let item = self.items.remove(0);
            proof {
                reveal(Seq::filter);
                assert(src.skip(i as int)[0] == item@);
                assert(src.take(i + 1).drop_last() =~= src.take(i as int));
                assert(src.take(i + 1).last() == item@);
                assert forall|k: int| 0 <= k < self.items@.len() implies #[trigger] item_views(self.items@)[k]
                    == src.skip(i + 1)[k] by {
                    assert(self.items@[k] == before_items[k + 1]);
                    assert(item_views(before_items)[k + 1] == src.skip(i as int)[k + 1]);
                }
                assert(item_views(self.items@) =~= src.skip(i + 1));
            }
            if !crate::text::same_text(item.id.as_str(), id) {
                kept.push(item);
                assert(item_views(kept@) =~= src.take(i as int).filter(|v: ItemView| v.id != id@).push(
                    src[i as int],
                ));
            }
            i = i + 1;
        }
        assert(src.skip(i as int).len() == 0);
        assert(src.take(src.len() as int) =~= src);
        self.items = kept;
        let clear = match &self.editing_id {
            Some(e) => crate::text::same_text(e.as_str(), id),
            None => false,
        };
        if clear {
            self.editing_id = None;
        }
    }
}

proof fn lemma_filter_keeps_all(items: Seq<ItemView>, id: Seq<char>)
    requires
        forall|k: int| 0 <= k < items.len() ==> (#[trigger] items[k]).id != id,
    ensures
        items.filter(|v: ItemView| v.id != id) == items,
    decreases items.len(),
{
    reveal(Seq::filter);
    if items.len() > 0 {
        let rest = items.drop_last();
        assert forall|k: int| 0 <= k < rest.len() implies (#[trigger] rest[k]).id != id by {
            assert(rest[k] == items[k]);
        }
        lemma_filter_keeps_all(rest, id);
        assert(rest.push(items.last()) =~= items);
    } else {
        assert(items.filter(|v: ItemView| v.id != id) =~= items);
    }
}

/// Deleting the item just added, by its id, gives the list back, provided
/// no earlier item carried that id.
pub proof fn lemma_add_then_delete(items: Seq<ItemView>, added: ItemView)
    requires
        forall|k: int| 0 <= k < items.len() ==> (#[trigger] items[k]).id != added.id,
    ensures
        items.push(added).filter(|v: ItemView| v.id != added.id) == items,
{
    reveal(Seq::filter);
    assert(items.push(added).drop_last() =~= items);
    lemma_filter_keeps_all(items, added.id);
}

} // verus!
