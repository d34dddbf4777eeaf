use vstd::prelude::*;

verus! {

/// The size class of a block reward.
#[derive(Clone, Copy, Debug, PartialEq, Eq, Structural)]
pub enum Category {
    Flake,
    Grain,
    Nugget,
    Vein,
    Motherlode,
    Genesis,
}

/// A block reward: its class and the amount it pays.
#[derive(Clone, Copy, Debug, PartialEq, Eq, Structural)]
pub struct Reward {
    pub category: Category,
    pub amount: u128,
}

impl Reward {
    pub fn get_amount(&self) -> (r: u128)
        ensures
            r == self.amount,
    {
        self.amount
    }
}

/// How many rewards of each class are still to be paid out in this epoch.
#[derive(Clone, Copy, Debug, PartialEq, Eq, Structural)]
pub struct RewardState {
    pub flakes: u128,
    pub grains: u128,
    pub nuggets: u128,
    pub veins: u128,
    pub motherlodes: u128,
    pub genesis: u128,
}

impl RewardState {
    pub open spec fn remaining(self, category: Category) -> u128 {
        match category {
            Category::Flake => self.flakes,
            Category::Grain => self.grains,
            Category::Nugget => self.nuggets,
            Category::Vein => self.veins,
            Category::Motherlode => self.motherlodes,
            Category::Genesis => self.genesis,
        }
    }

    /// A reward class is accepted while some of its rewards remain.
    pub open spec fn accepts(self, category: Category) -> bool {
        self.remaining(category) > 0
    }

    pub fn valid_reward(&self, category: Category) -> (r: bool)
        ensures
            r == self.accepts(category),
    {
        let left = match category {
            Category::Flake => self.flakes,
            Category::Grain => self.grains,
            Category::Nugget => self.nuggets,
            Category::Vein => self.veins,
            Category::Motherlode => self.motherlodes,
            Category::Genesis => self.genesis,
        };
        left > 0
    }
}

} // verus!
