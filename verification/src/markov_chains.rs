use vstd::prelude::*;

verus! {

/// Number of room attributes the Markov chain tracks.
pub const ATTRIBUTE_COUNT: usize = 5;

/// The room attributes the Markov chain decides, one state per attribute.
#[allow(non_camel_case_types)]
#[derive(Debug, Clone, Copy, PartialEq, Eq, Structural)]
pub enum Room_Attributes {
    Room_Size,
    Inner_Walls,
    Enemy_Count,
    Enemy_Type,
    Item_Count,
}

/// The attribute with position `i` in the attribute arrays.
pub open spec fn attribute_at(i: int) -> Option<Room_Attributes> {
    if i == 0 {
        Some(Room_Attributes::Room_Size)
    } else if i == 1 {
        Some(Room_Attributes::Inner_Walls)
    } else if i == 2 {
        Some(Room_Attributes::Enemy_Count)
    } else if i == 3 {
        Some(Room_Attributes::Enemy_Type)
    } else if i == 4 {
        Some(Room_Attributes::Item_Count)
    } else {
        None
    }
}

/// Position of an attribute in the attribute arrays.
pub open spec fn attribute_position(a: Room_Attributes) -> int {
    match a {
        Room_Attributes::Room_Size => 0,
        Room_Attributes::Inner_Walls => 1,
        Room_Attributes::Enemy_Count => 2,
        Room_Attributes::Enemy_Type => 3,
        Room_Attributes::Item_Count => 4,
    }
}

impl Room_Attributes {
    /// The attribute at position `index` of the attribute arrays, if any.
    pub fn from_index(index: usize) -> (a: Option<Room_Attributes>)
        ensures
            a == attribute_at(index as int),
    {
        match index {
            0 => Some(Room_Attributes::Room_Size),
            1 => Some(Room_Attributes::Inner_Walls),
            2 => Some(Room_Attributes::Enemy_Count),
            3 => Some(Room_Attributes::Enemy_Type),
            4 => Some(Room_Attributes::Item_Count),
            _ => None,
        }
    }

    /// Position of this attribute in the attribute arrays.
    pub fn index(&self) -> (i: usize)
        ensures
            i == attribute_position(*self),
            attribute_at(i as int) == Some(*self),
    {
        match self {
            Room_Attributes::Room_Size => 0,
            Room_Attributes::Inner_Walls => 1,
            Room_Attributes::Enemy_Count => 2,
            Room_Attributes::Enemy_Type => 3,
            Room_Attributes::Item_Count => 4,
        }
    }
}

/// Whether a state is one of the three the chain knows: stealth (0),
/// normal (1) or carnage (2).
pub open spec fn is_state(v: u8) -> bool {
    v <= 2
}

/// The states the attributes took in the last room.
#[derive(Debug, Clone, Copy)]
pub struct LastAttributeArray {
    pub attributes: [u8; 5],
}

impl LastAttributeArray {
    /// Every attribute in the stealth state.
    pub fn new() -> (a: LastAttributeArray)
        ensures
            a.attributes@ == seq![0u8, 0u8, 0u8, 0u8, 0u8],
    {
        LastAttributeArray { attributes: [0, 0, 0, 0, 0] }
    }

    /// Every attribute holds a state.
    pub open spec fn wf(&self) -> bool {
        forall|i: int| 0 <= i < 5 ==> is_state(#[trigger] self.attributes@[i])
    }

    /// Sets attribute `index` to `value`; an index past the last attribute
    /// or a value that is no state leaves the array unchanged.
    pub fn set_attribute(&mut self, index: usize, value: u8)
        ensures
            final(self).attributes@ == attribute_set(old(self).attributes@, index as int, value),
    {
        if index < self.attributes.len() && value <= 2 {
            self.attributes[index] = value;
        }
    }

    /// The state of attribute `index`, if there is such an attribute.
    pub fn get_attribute(&self, index: usize) -> (v: Option<u8>)
        ensures
            v == attribute_get(self.attributes@, index as int),
    {
        if index < self.attributes.len() {
            Some(self.attributes[index])
        } else {
            None
        }
    }

    /// All five states.
    pub fn get_last_attribute_array(&self) -> (a: [u8; 5])
        ensures
            a@ == self.attributes@,
    {
        self.attributes
    }
}

/// The states drawn for the next room.
#[derive(Debug, Clone, Copy)]
pub struct NextAttributeArray {
    pub attributes: [u8; 5],
}

impl NextAttributeArray {
    /// Every attribute in the stealth state.
    pub fn new() -> (a: NextAttributeArray)
        ensures
            a.attributes@ == seq![0u8, 0u8, 0u8, 0u8, 0u8],
    {
        NextAttributeArray { attributes: [0, 0, 0, 0, 0] }
    }

    /// Every attribute holds a state.
    pub open spec fn wf(&self) -> bool {
        forall|i: int| 0 <= i < 5 ==> is_state(#[trigger] self.attributes@[i])
    }

    /// Sets attribute `index` to `value`; an index past the last attribute
    /// or a value that is no state leaves the array unchanged.
    pub fn set_next_attribute(&mut self, index: usize, value: u8)
        ensures
            final(self).attributes@ == attribute_set(old(self).attributes@, index as int, value),
    {
        if index < self.attributes.len() && value <= 2 {
            self.attributes[index] = value;
        }
    }

    /// The state of attribute `index`, if there is such an attribute.
    pub fn get_attribute(&self, index: usize) -> (v: Option<u8>)
        ensures
            v == attribute_get(self.attributes@, index as int),
    {
        if index < self.attributes.len() {
            Some(self.attributes[index])
        } else {
            None
        }
    }
}

/// Makes the states drawn for the next room the last room's states.
pub fn adopt_next_attributes(last: &mut LastAttributeArray, next: &NextAttributeArray)
    ensures
        final(last).attributes@ == next.attributes@,
{
    last.attributes = next.attributes;
}

/// The states after attribute `index` is set to `value` (unchanged for an
/// index past the last attribute or a value that is no state).
pub open spec fn attribute_set(a: Seq<u8>, index: int, value: u8) -> Seq<u8> {
    if 0 <= index < 5 && is_state(value) {
        a.update(index, value)
    } else {
        a
    }
}

/// The state of attribute `index`, if there is such an attribute.
pub open spec fn attribute_get(a: Seq<u8>, index: int) -> Option<u8> {
    if 0 <= index < 5 {
        Some(a[index])
    } else {
        None
    }
}

/// Reading an attribute back after setting it to a state gives that state;
/// every other attribute reads as before; setting a value that is no state
/// changes nothing; and setting keeps every attribute a state.
pub proof fn lemma_attribute_set_get(a: Seq<u8>, index: int, value: u8, other: int)
    requires
        a.len() == 5,
    ensures
        0 <= index < 5 && is_state(value) ==> attribute_get(attribute_set(a, index, value), index)
            == Some(value),
        other != index ==> attribute_get(attribute_set(a, index, value), other) == attribute_get(a, other),
        !is_state(value) ==> attribute_set(a, index, value) == a,
        (forall|i: int| 0 <= i < 5 ==> is_state(#[trigger] a[i])) ==> (forall|i: int|
            0 <= i < 5 ==> is_state(#[trigger] attribute_set(a, index, value)[i])),
{
}

} // verus!
