//! Stable identifiers. Each kind of persistent object carries its own
//! identifier type so that an entity id can never be mistaken for a layer id.

use vstd::prelude::*;

use crate::text::{decimal, push_decimal};

verus! {

/// The text `Name(value)` by which an identifier is displayed.
pub open spec fn id_label(name: Seq<char>, value: u64) -> Seq<char> {
    name + seq!['('] + decimal(value as nat) + seq![')']
}

/// Identifier of a project.
#[derive(Clone, Copy, Debug, PartialEq, Eq, Hash, Structural)]
pub struct ProjectId(u64);

impl ProjectId {
    /// The number this identifier wraps.
    pub closed spec fn spec_value(self) -> u64 {
        self.0
    }

    pub fn new(value: u64) -> (id: Self)
        ensures
            id.spec_value() == value,
    {
        ProjectId(value)
    }

    pub fn value(self) -> (v: u64)
        ensures
            v == self.spec_value(),
    {
        self.0
    }

    /// Identifiers are equal exactly when the numbers they wrap are.
    pub broadcast proof fn lemma_value_injective(a: ProjectId, b: ProjectId)
        ensures
            #[trigger] a.spec_value() == #[trigger] b.spec_value() <==> a == b,
    {
    }

    /// The display text, e.g. `ProjectId(3)`.
    pub fn label(self) -> (s: String)
        ensures
            s@ == id_label("ProjectId"@, self.spec_value()),
    {
        let mut s = String::from_str("ProjectId(");
        push_decimal(&mut s, self.0);
        s.append(")");
        proof {
            reveal_strlit("ProjectId(");
            reveal_strlit("ProjectId");
            reveal_strlit(")");
            assert(s@ =~= id_label("ProjectId"@, self.spec_value()));
        }
        s
    }
}

/// Identifier of a drawing inside a project.
#[derive(Clone, Copy, Debug, PartialEq, Eq, Hash, Structural)]
pub struct DrawingId(u64);

impl DrawingId {
    /// The number this identifier wraps.
    pub closed spec fn spec_value(self) -> u64 {
        self.0
    }

    pub fn new(value: u64) -> (id: Self)
        ensures
            id.spec_value() == value,
    {
        DrawingId(value)
    }

    pub fn value(self) -> (v: u64)
        ensures
            v == self.spec_value(),
    {
        self.0
    }

    /// Identifiers are equal exactly when the numbers they wrap are.
    pub broadcast proof fn lemma_value_injective(a: DrawingId, b: DrawingId)
        ensures
            #[trigger] a.spec_value() == #[trigger] b.spec_value() <==> a == b,
    {
    }

    /// The display text, e.g. `DrawingId(3)`.
    pub fn label(self) -> (s: String)
        ensures
            s@ == id_label("DrawingId"@, self.spec_value()),
    {
        let mut s = String::from_str("DrawingId(");
        push_decimal(&mut s, self.0);
        s.append(")");
        proof {
            reveal_strlit("DrawingId(");
            reveal_strlit("DrawingId");
            reveal_strlit(")");
            assert(s@ =~= id_label("DrawingId"@, self.spec_value()));
        }
        s
    }
}

/// Identifier of an entity inside a drawing.
#[derive(Clone, Copy, Debug, PartialEq, Eq, Hash, Structural)]
pub struct EntityId(u64);

impl EntityId {
    /// The number this identifier wraps.
    pub closed spec fn spec_value(self) -> u64 {
        self.0
    }

    pub fn new(value: u64) -> (id: Self)
        ensures
            id.spec_value() == value,
    {
        EntityId(value)
    }

    pub fn value(self) -> (v: u64)
        ensures
            v == self.spec_value(),
    {
        self.0
    }

    /// Identifiers are equal exactly when the numbers they wrap are.
    pub broadcast proof fn lemma_value_injective(a: EntityId, b: EntityId)
        ensures
            #[trigger] a.spec_value() == #[trigger] b.spec_value() <==> a == b,
    {
    }

    /// The display text, e.g. `EntityId(3)`.
    pub fn label(self) -> (s: String)
        ensures
            s@ == id_label("EntityId"@, self.spec_value()),
    {
        let mut s = String::from_str("EntityId(");
        push_decimal(&mut s, self.0);
        s.append(")");
        proof {
            reveal_strlit("EntityId(");
            reveal_strlit("EntityId");
            reveal_strlit(")");
            assert(s@ =~= id_label("EntityId"@, self.spec_value()));
        }
        s
    }
}

/// Identifier of a layer inside a drawing.
#[derive(Clone, Copy, Debug, PartialEq, Eq, Hash, Structural)]
pub struct LayerId(u64);

impl LayerId {
    /// The number this identifier wraps.
    pub closed spec fn spec_value(self) -> u64 {
        self.0
    }

    pub fn new(value: u64) -> (id: Self)
        ensures
            id.spec_value() == value,
    {
        LayerId(value)
    }

    pub fn value(self) -> (v: u64)
        ensures
            v == self.spec_value(),
    {
        self.0
    }

    /// Identifiers are equal exactly when the numbers they wrap are.
    pub broadcast proof fn lemma_value_injective(a: LayerId, b: LayerId)
        ensures
            #[trigger] a.spec_value() == #[trigger] b.spec_value() <==> a == b,
    {
    }

    /// The display text, e.g. `LayerId(3)`.
    pub fn label(self) -> (s: String)
        ensures
            s@ == id_label("LayerId"@, self.spec_value()),
    {
        let mut s = String::from_str("LayerId(");
        push_decimal(&mut s, self.0);
        s.append(")");
        proof {
            reveal_strlit("LayerId(");
            reveal_strlit("LayerId");
            reveal_strlit(")");
            assert(s@ =~= id_label("LayerId"@, self.spec_value()));
        }
        s
    }
}

/// Identifier of a dimension inside a drawing.
#[derive(Clone, Copy, Debug, PartialEq, Eq, Hash, Structural)]
pub struct DimensionId(u64);

impl DimensionId {
    /// The number this identifier wraps.
    pub closed spec fn spec_value(self) -> u64 {
        self.0
    }

    pub fn new(value: u64) -> (id: Self)
        ensures
            id.spec_value() == value,
    {
        DimensionId(value)
    }

    pub fn value(self) -> (v: u64)
        ensures
            v == self.spec_value(),
    {
        self.0
    }

    /// Identifiers are equal exactly when the numbers they wrap are.
    pub broadcast proof fn lemma_value_injective(a: DimensionId, b: DimensionId)
        ensures
            #[trigger] a.spec_value() == #[trigger] b.spec_value() <==> a == b,
    {
    }

    /// The display text, e.g. `DimensionId(3)`.
    pub fn label(self) -> (s: String)
        ensures
            s@ == id_label("DimensionId"@, self.spec_value()),
    {
        let mut s = String::from_str("DimensionId(");
        push_decimal(&mut s, self.0);
        s.append(")");
        proof {
            reveal_strlit("DimensionId(");
            reveal_strlit("DimensionId");
            reveal_strlit(")");
            assert(s@ =~= id_label("DimensionId"@, self.spec_value()));
        }
        s
    }
}

/// Identifier of a sheet.
#[derive(Clone, Copy, Debug, PartialEq, Eq, Hash, Structural)]
pub struct SheetId(u64);

impl SheetId {
    /// The number this identifier wraps.
    pub closed spec fn spec_value(self) -> u64 {
        self.0
    }

    pub fn new(value: u64) -> (id: Self)
        ensures
            id.spec_value() == value,
    {
        SheetId(value)
    }

    pub fn value(self) -> (v: u64)
        ensures
            v == self.spec_value(),
    {
        self.0
    }

    /// Identifiers are equal exactly when the numbers they wrap are.
    pub broadcast proof fn lemma_value_injective(a: SheetId, b: SheetId)
        ensures
            #[trigger] a.spec_value() == #[trigger] b.spec_value() <==> a == b,
    {
    }

    /// The display text, e.g. `SheetId(3)`.
    pub fn label(self) -> (s: String)
        ensures
            s@ == id_label("SheetId"@, self.spec_value()),
    {
        let mut s = String::from_str("SheetId(");
        push_decimal(&mut s, self.0);
        s.append(")");
        proof {
            reveal_strlit("SheetId(");
            reveal_strlit("SheetId");
            reveal_strlit(")");
            assert(s@ =~= id_label("SheetId"@, self.spec_value()));
        }
        s
    }
}

} // verus!
