//! Items and the player inventory: a hotbar strip and a grid of slots, with
//! stacking insertion of picked-up drops.

use vstd::prelude::*;

verus! {

/// What an item is: a placeable block carrying a tile ID, or a tool.
#[derive(Clone, PartialEq, Eq)]
pub enum ItemType {
    Block(usize),
    Tool(ToolType),
}

/// The tools: a breaker restricted to a set of tile IDs, or an attacker.
#[derive(Clone, PartialEq, Eq)]
pub enum ToolType {
    Breaker(Vec<usize>),
    Attacker(),
}

/// One item stack.
#[derive(Clone)]
pub struct Item {
    pub item_type: Option<ItemType>,
    pub item_count: usize,
    pub texture_id: usize,
    pub name: String,
    pub max_item_count: usize,
}

impl Item {
    pub fn new(
        texture_id: usize,
        item_type: Option<ItemType>,
        name: String,
        count: usize,
        max_item_count: usize,
    ) -> (r: Item)
        ensures
            r.item_type == item_type,
            r.item_count == count,
            r.texture_id == texture_id,
            r.name == name,
            r.max_item_count == max_item_count,
    {
        Item { item_type, item_count: count, texture_id, name, max_item_count }
    }
}

/// A template an item drop is generated from; the count is drawn from the
/// range by the caller's randomness.
pub struct ItemGenerator {
    pub count_range: (usize, usize),
    pub texture_id: usize,
    pub item_type: Option<ItemType>,
    pub name: String,
    pub max_item_count: usize,
}

impl ItemGenerator {
    pub fn new(
        count_range: (usize, usize),
        texture_id: usize,
        item_type: Option<ItemType>,
        name: String,
        max_item_count: usize,
    ) -> (r: ItemGenerator)
        ensures
            r.count_range == count_range,
            r.texture_id == texture_id,
            r.item_type == item_type,
            r.name == name,
            r.max_item_count == max_item_count,
    {
        ItemGenerator { count_range, texture_id, item_type, name, max_item_count }
    }

    /// The item this template generates for a drawn count.
    pub fn generate_with_count(&self, count: usize) -> (r: Item)
        ensures
            spec_same_item_type(r.item_type, self.item_type),
            r.item_count == count,
            r.texture_id == self.texture_id,
            r.name == self.name,
            r.max_item_count == self.max_item_count,
    {
        let item_type: Option<ItemType> = match &self.item_type {
            None => None,
            Some(ItemType::Block(id)) => Some(ItemType::Block(*id)),
            Some(ItemType::Tool(ToolType::Attacker())) => Some(ItemType::Tool(ToolType::Attacker())),
            Some(ItemType::Tool(ToolType::Breaker(can_break))) => Some(
                ItemType::Tool(ToolType::Breaker(clone_usize_vec(can_break))),
            ),
        };
        Item::new(self.texture_id, item_type, self.name.clone(), count, self.max_item_count)
    }
}

/// A dropped item in the world: its texture and the item itself.
#[derive(Clone)]
pub enum ItemDrop {
    Tile(u32, Item),
}

/// The data the player's UI renders from.
pub struct PlayerData {
    pub inventory: Inventory,
}

/// The player inventory: ten hotbar slots and four rows of ten slots.
pub struct Inventory {
    pub selected_item: usize,
    pub hot_bar: Vec<Option<Item>>,
    pub inventory: Vec<Option<Item>>,
}

/// Whether two item types describe the same item, tool tile lists compared
/// by content.
pub open spec fn spec_same_item_type(a: Option<ItemType>, b: Option<ItemType>) -> bool {
    match (a, b) {
        (None, None) => true,
        (Some(ItemType::Block(x)), Some(ItemType::Block(y))) => x == y,
        (
            Some(ItemType::Tool(ToolType::Attacker())),
            Some(ItemType::Tool(ToolType::Attacker())),
        ) => true,
        (
            Some(ItemType::Tool(ToolType::Breaker(v1))),
            Some(ItemType::Tool(ToolType::Breaker(v2))),
        ) => v1@ == v2@,
        _ => false,
    }
}

/// Whether a slot holds a block stack of `block_id` with room for one more.
pub open spec fn spec_stackable(slot: Option<Item>, block_id: usize) -> bool {
    match slot {
        Some(item) => match item.item_type {
            Some(ItemType::Block(id)) => id == block_id && item.item_count < item.max_item_count,
            _ => false,
        },
        None => false,
    }
}

/// The block tile ID a drop carries, if its item is a block.
pub open spec fn spec_drop_block(drop: ItemDrop) -> Option<usize> {
    match drop {
        ItemDrop::Tile(_texture, item) => match item.item_type {
            Some(ItemType::Block(id)) => Some(id),
            _ => None,
        },
    }
}

/// The item a drop carries.
pub open spec fn spec_drop_item(drop: ItemDrop) -> Item {
    match drop {
        ItemDrop::Tile(_texture, item) => item,
    }
}

/// The item with one more in its stack, everything else unchanged.
pub open spec fn spec_with_one_more(it: Item) -> Item {
    Item { item_count: (it.item_count + 1) as usize, ..it }
}

/// The first slot that can take one more of `block_id`.
pub open spec fn first_stackable(slots: Seq<Option<Item>>, block_id: usize) -> int {
    choose|i: int|
        0 <= i < slots.len() && spec_stackable(slots[i], block_id) && (forall|j: int|
            0 <= j < i ==> !spec_stackable(#[trigger] slots[j], block_id))
}

/// The first empty slot.
pub open spec fn first_empty(slots: Seq<Option<Item>>) -> int {
    choose|i: int|
        0 <= i < slots.len() && slots[i] is None && (forall|j: int|
            0 <= j < i ==> #[trigger] slots[j] is Some)
}

proof fn lemma_first_stackable(slots: Seq<Option<Item>>, block_id: usize, i: int)
    requires
        0 <= i < slots.len(),
        spec_stackable(slots[i], block_id),
        forall|j: int| 0 <= j < i ==> !spec_stackable(#[trigger] slots[j], block_id),
    ensures
        first_stackable(slots, block_id) == i,
{
    let w = first_stackable(slots, block_id);
    assert(0 <= w < slots.len() && spec_stackable(slots[w], block_id) && (forall|j: int|
        0 <= j < w ==> !spec_stackable(#[trigger] slots[j], block_id))) by {
        assert(0 <= i < slots.len() && spec_stackable(slots[i], block_id) && (forall|j: int|
            0 <= j < i ==> !spec_stackable(#[trigger] slots[j], block_id)));
    }
    if w < i {
        assert(!spec_stackable(slots[w], block_id));
    }
    if i < w {
        assert(!spec_stackable(slots[i], block_id));
    }
}

proof fn lemma_first_empty(slots: Seq<Option<Item>>, i: int)
    requires
        0 <= i < slots.len(),
        slots[i] is None,
        forall|j: int| 0 <= j < i ==> #[trigger] slots[j] is Some,
    ensures
        first_empty(slots) == i,
{
    let w = first_empty(slots);
    assert(0 <= w < slots.len() && slots[w] is None && (forall|j: int|
        0 <= j < w ==> #[trigger] slots[j] is Some)) by {
        assert(0 <= i < slots.len() && slots[i] is None && (forall|j: int|
            0 <= j < i ==> #[trigger] slots[j] is Some));
    }
    if w < i {
        assert(slots[w] is Some);
    }
    if i < w {
        assert(slots[i] is Some);
    }
}

impl Inventory {
    /// The inventory grid is ten by four, the hotbar ten wide.
    pub open spec fn wf(self) -> bool {
        self.hot_bar@.len() == 10 && self.inventory@.len() == 40
    }

    /// The player's starting loadout: the attack, break and build tools,
    /// a light block and a torch block on the hotbar, an empty grid below.
    pub fn new() -> (r: Inventory)
        ensures
            r.wf(),
            r.selected_item == 0,
            (r.hot_bar@[0] matches Some(it) && it.texture_id == 1 && (it.item_type matches Some(
                ItemType::Tool(ToolType::Attacker()),
            )) && it.name@ == "Attack"@ && it.item_count == 1 && it.max_item_count == 1),
            (r.hot_bar@[1] matches Some(it) && it.texture_id == 2 && (it.item_type matches Some(
                ItemType::Tool(ToolType::Breaker(can_break)),
            ) && can_break@ == Seq::<usize>::empty()) && it.name@ == "Break"@ && it.item_count
                == 2 && it.max_item_count == 1),
            (r.hot_bar@[2] matches Some(it) && it.texture_id == 3 && (it.item_type matches Some(
                ItemType::Block(1),
            )) && it.name@ == "Build"@ && it.item_count == 1 && it.max_item_count == 1),
            (r.hot_bar@[3] matches Some(it) && it.texture_id == 4 && (it.item_type matches Some(
                ItemType::Block(88),
            )) && it.name@ == "Light"@ && it.item_count == 128 && it.max_item_count == 1),
            (r.hot_bar@[4] matches Some(it) && it.texture_id == 4 && (it.item_type matches Some(
                ItemType::Block(173),
            )) && it.name@ == "Torch"@ && it.item_count == 64 && it.max_item_count == 1),
            forall|i: int| 5 <= i < 10 ==> r.hot_bar@[i] is None,
            forall|i: int| 0 <= i < 40 ==> r.inventory@[i] is None,
    {
        let mut hot_bar: Vec<Option<Item>> = Vec::new();
        let attack = Item::new(
            1,
            Some(ItemType::Tool(ToolType::Attacker())),
            String::from_str("Attack"),
            1,
            1,
        );
        let empty_list: Vec<usize> = Vec::new();
        let breaker = Item::new(
            2,
            Some(ItemType::Tool(ToolType::Breaker(empty_list))),
            String::from_str("Break"),
            2,
            1,
        );
        let build = Item::new(3, Some(ItemType::Block(1)), String::from_str("Build"), 1, 1);
        let light = Item::new(4, Some(ItemType::Block(88)), String::from_str("Light"), 128, 1);
        let torch = Item::new(4, Some(ItemType::Block(173)), String::from_str("Torch"), 64, 1);
        hot_bar.push(Some(attack));
        hot_bar.push(Some(breaker));
        hot_bar.push(Some(build));
        hot_bar.push(Some(light));
        hot_bar.push(Some(torch));
        let ghost first5 = hot_bar@;
        proof {
            assert(first5[0] == Some(attack));
            assert(first5[1] == Some(breaker));
            assert(first5[2] == Some(build));
            assert(first5[3] == Some(light));
            assert(first5[4] == Some(torch));
        }
        let mut i: usize = 5;
        while i < 10
            invariant
                5 <= i <= 10,
                hot_bar@.len() == i,
                first5.len() == 5,
                forall|j: int| 0 <= j < 5 ==> hot_bar@[j] == first5[j],
                forall|j: int| 5 <= j < i ==> hot_bar@[j] is None,
            decreases 10 - i,
        {
            hot_bar.push(None);
            i += 1;
        }
        let mut inventory: Vec<Option<Item>> = Vec::new();
        let mut i: usize = 0;
        while i < 40
            invariant
                i <= 40,
                inventory@.len() == i,
                forall|j: int| 0 <= j < i ==> inventory@[j] is None,
            decreases 40 - i,
        {
            inventory.push(None);
            i += 1;
        }
        Inventory { selected_item: 0, hot_bar, inventory }
    }

    /// Adds a picked-up drop to the inventory grid: a block drop raises the
    /// count of the first matching block slot with room by one, else fills
    /// the first empty slot with the dropped item; the drop is handed back
    /// untouched, the grid unchanged, when it is full. A non-block drop is
    /// silently absorbed and changes nothing.
    pub fn add_item(&mut self, item: ItemDrop) -> (r: Option<ItemDrop>)
        requires
            old(self).wf(),
        ensures
            final(self).wf(),
            final(self).selected_item == old(self).selected_item,
            final(self).hot_bar@ == old(self).hot_bar@,
            ({
                let slots = old(self).inventory@;
                match spec_drop_block(item) {
                    Some(block_id) => {
                        if exists|i: int|
                            0 <= i < 40 && spec_stackable(#[trigger] slots[i], block_id) {
                            let fs = first_stackable(slots, block_id);
                            &&& r is None
                            &&& final(self).inventory@ == slots.update(
                                fs,
                                Some(spec_with_one_more(slots[fs]->0)),
                            )
                        } else if exists|i: int| 0 <= i < 40 && #[trigger] slots[i] is None {
                            let fe = first_empty(slots);
                            &&& r is None
                            &&& final(self).inventory@ == slots.update(
                                fe,
                                Some(spec_drop_item(item)),
                            )
                        } else {
                            r == Some(item) && final(self).inventory@ == slots
                        }
                    },
                    None => r is None && final(self).inventory@ == slots,
                }
            }),
    {
        let block_id: usize;
        match &item {
            ItemDrop::Tile(_texture, drop_item) => {
                match &drop_item.item_type {
                    Some(ItemType::Block(id)) => {
                        block_id = *id;
                    },
                    _ => {
                        return None;
                    },
                }
            },
        }
        match self.find_stackable(block_id) {
            Some(i) => {
                proof {
                    lemma_first_stackable(self.inventory@, block_id, i as int);
                }
                match &mut self.inventory[i] {
                    Some(slot_item) => {
                        slot_item.item_count = slot_item.item_count + 1;
                    },
                    None => {},
                }
                return None;
            },
            None => {},
        }
        match self.find_empty() {
            Some(i) => {
                proof {
                    lemma_first_empty(self.inventory@, i as int);
                }
                match item {
                    ItemDrop::Tile(_texture, drop_item) => {
                        self.inventory.set(i, Some(drop_item));
                    },
                }
                return None;
            },
            None => {},
        }
        Some(item)
    }

    /// The first inventory slot that can take one more of `block_id`.
    fn find_stackable(&self, block_id: usize) -> (r: Option<usize>)
        requires
            self.wf(),
        ensures
            match r {
                Some(i) => i < 40 && spec_stackable(self.inventory@[i as int], block_id) && (
                forall|j: int|
                    0 <= j < i ==> !spec_stackable(#[trigger] self.inventory@[j], block_id)),
                None => forall|j: int|
                    0 <= j < 40 ==> !spec_stackable(#[trigger] self.inventory@[j], block_id),
            },
    {
        let mut i: usize = 0;
        while i < 40
            invariant
                self.wf(),
                i <= 40,
                forall|j: int|
                    0 <= j < i ==> !spec_stackable(#[trigger] self.inventory@[j], block_id),
            decreases 40 - i,
        {
            let stackable: bool;
            match &self.inventory[i] {
                Some(slot_item) => {
                    match &slot_item.item_type {
                        Some(ItemType::Block(id)) => {
                            stackable = *id == block_id && slot_item.item_count
                                < slot_item.max_item_count;
                        },
                        _ => {
                            stackable = false;
                        },
                    }
                },
                None => {
                    stackable = false;
                },
            }
            if stackable {
                return Some(i);
            }
            i += 1;
        }
        None
    }

    /// The first empty inventory slot.
    fn find_empty(&self) -> (r: Option<usize>)
        requires
            self.wf(),
        ensures
            match r {
                Some(i) => i < 40 && self.inventory@[i as int] is None && (forall|j: int|
                    0 <= j < i ==> #[trigger] self.inventory@[j] is Some),
                None => forall|j: int| 0 <= j < 40 ==> #[trigger] self.inventory@[j] is Some,
            },
    {
        let mut i: usize = 0;
        while i < 40
            invariant
                self.wf(),
                i <= 40,
                forall|j: int| 0 <= j < i ==> #[trigger] self.inventory@[j] is Some,
            decreases 40 - i,
        {
            if self.inventory[i].is_none() {
                return Some(i);
            }
            i += 1;
        }
        None
    }
}

/// A copy of a tile-ID list.
fn clone_usize_vec(v: &Vec<usize>) -> (r: Vec<usize>)
    ensures
        r@ == v@,
{
    let mut out: Vec<usize> = Vec::new();
    let mut i: usize = 0;
    while i < v.len()
        invariant
            i <= v@.len(),
            out@ == v@.subrange(0, i as int),
        decreases v@.len() - i,
    {
        out.push(v[i]);
        proof {
            assert(out@ =~= v@.subrange(0, i + 1));
        }
        i += 1;
    }
    proof {
        assert(out@ =~= v@);
    }
    out
}

} // verus!
