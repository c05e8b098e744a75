//! Badges: what a user earns by opening and closing positions.

use vstd::prelude::*;

use crate::address::Address;
use crate::user_portfolio::{PortfolioState, PortfolioStorage, Settings};

verus! {

/// The last leaderboard rank that earns `BadgeType::Top10Leaderboard`.
pub const TOP_RANKS: u32 = 10;

/// What a badge is for.
#[derive(Clone, Copy, Debug, PartialEq, Eq, Structural)]
pub enum BadgeType {
    /// The user was among the first to open a position.
    EarlyAdopter,
    /// The user was among the best ten of the leaderboard when opening or closing a position.
    Top10Leaderboard,
}

/// A badge that a user has earned.
#[derive(Clone, Copy, Debug, PartialEq, Eq, Structural)]
pub struct Badge {
    pub badge_type: BadgeType,
}

/// Whether a badge of type `badge_type` is among `badges`.
pub open spec fn holds(badges: Seq<Badge>, badge_type: BadgeType) -> bool {
    badges.contains(Badge { badge_type })
}

/// Whether a rank is one of the best ten; 1 is the best.
pub open spec fn is_top_rank(rank: Option<u32>) -> bool {
    rank matches Some(rank) && 1 <= rank <= TOP_RANKS
}

impl PortfolioState {
    /// The state in which `user` has a badge of type `badge_type`: earned now, after all others,
    /// if not before.
    pub open spec fn with_badge(self, user: Address, badge_type: BadgeType) -> PortfolioState {
        if holds(self.badges_of(user), badge_type) {
            self
        } else {
            PortfolioState {
                badges: self.badges.insert(
                    user,
                    self.badges_of(user).push(Badge { badge_type }),
                ),
                ..self
            }
        }
    }

    /// The state after a look at the rank of `user`.
    pub open spec fn with_rank_badge(self, user: Address) -> PortfolioState {
        if is_top_rank(self.ranks.get(user)) {
            self.with_badge(user, BadgeType::Top10Leaderboard)
        } else {
            self
        }
    }

    /// The state after the first position of `user`: one more user counted, and a badge if the
    /// users before were fewer than the cap.
    pub open spec fn with_newcomer(self, user: Address) -> PortfolioState {
        match self.settings {
            None => self,
            Some(settings) => {
                let counted = PortfolioState {
                    settings: Some(settings.with_one_more_user()),
                    ..self
                };
                if settings.total_users_first_open < settings.early_adopter_cap {
                    counted.with_badge(user, BadgeType::EarlyAdopter)
                } else {
                    counted
                }
            },
        }
    }

    /// The state after the badges of an opened position.
    pub open spec fn after_open_position(self, user: Address, first: bool) -> PortfolioState {
        if first {
            self.with_newcomer(user).with_rank_badge(user)
        } else {
            self.with_rank_badge(user)
        }
    }

    /// The state after the badges of a position closed with `realized_pnl`. No badge depends on the
    /// profit.
    pub open spec fn after_close_position(self, user: Address, realized_pnl: i128) -> PortfolioState {
        self.with_rank_badge(user)
    }
}

impl Settings {
    /// The settings with one more user counted, as far as the counter goes.
    pub open spec fn with_one_more_user(self) -> Settings {
        Settings {
            total_users_first_open: if self.total_users_first_open < u32::MAX {
                (self.total_users_first_open + 1) as u32
            } else {
                u32::MAX
            },
            ..self
        }
    }
}

/// All badges earned by `user`, in award order.
pub fn get_badges(storage: &PortfolioStorage, user: Address) -> (badges: Vec<Badge>)
    ensures
        badges@ == storage@.badges_of(user),
{
    let mut badges: Vec<Badge> = Vec::new();
    if let Some(earned) = storage.badges.get(user) {
        let mut i: usize = 0;
        while i < earned.len()
            invariant
                i <= earned@.len(),
                badges@ == earned@.take(i as int),
            decreases earned@.len() - i,
        {
            badges.push(earned[i]);
            i = i + 1;
            assert(earned@.take(i as int) =~= earned@.take(i - 1).push(earned@[i - 1]));
        }
        assert(earned@.take(i as int) =~= earned@);
    }
    badges
}

/// Gives `user` a badge of type `badge_type`, unless there is one already.
fn award(storage: &mut PortfolioStorage, user: Address, badge_type: BadgeType)
    ensures
        final(storage).host == old(storage).host,
        final(storage)@ == old(storage)@.with_badge(user, badge_type),
{
    let mut badges: Vec<Badge> = get_badges(storage, user);
    let mut i: usize = 0;
    while i < badges.len()
        invariant
            i <= badges@.len(),
            storage == old(storage),
            badges@ == storage@.badges_of(user),
            forall|j: int| 0 <= j < i ==> (#[trigger] badges@[j]).badge_type != badge_type,
        decreases badges@.len() - i,
    {
        if badges[i].badge_type == badge_type {
            assert(badges@[i as int] == Badge { badge_type });
            return;
        }
        i = i + 1;
    }
    badges.push(Badge { badge_type });
    storage.badges.set(user, badges);
    assert(storage@ =~= old(storage)@.with_badge(user, badge_type));
}

/// Gives `user` the badge of the best ten, if `user` is one of them.
fn award_rank(storage: &mut PortfolioStorage, user: Address)
    ensures
        final(storage).host == old(storage).host,
        final(storage)@ == old(storage)@.with_rank_badge(user),
{
    if let Some(rank) = storage.ranks.get(user) {
        if 1 <= *rank && *rank <= TOP_RANKS {
            award(storage, user, BadgeType::Top10Leaderboard);
        }
    }
}

/// Awards the badges of an opened position; `first` tells whether it is the user's first.
pub fn after_open_position(storage: &mut PortfolioStorage, user: Address, first: bool)
    ensures
        final(storage).host == old(storage).host,
        final(storage)@ == old(storage)@.after_open_position(user, first),
{
    if first {
        if let Some(settings) = storage.settings {
            let total: u32 = settings.total_users_first_open;
            storage.settings = Some(
                Settings {
                    total_users_first_open: if total < u32::MAX {
                        total + 1
                    } else {
                        u32::MAX
                    },
                    ..settings
                },
            );
            if total < settings.early_adopter_cap {
                award(storage, user, BadgeType::EarlyAdopter);
            }
        }
    }
    award_rank(storage, user);
}

/// Awards the badges of a position closed with `_realized_pnl`, on which no badge depends.
pub fn after_close_position(storage: &mut PortfolioStorage, user: Address, _realized_pnl: i128)
    ensures
        final(storage).host == old(storage).host,
        final(storage)@ == old(storage)@.after_close_position(user, _realized_pnl),
{
    award_rank(storage, user);
}

} // verus!
