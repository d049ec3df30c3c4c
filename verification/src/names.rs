//! The column names of the flat snapshot schema, as byte strings:
//! a spec constant and a matching executable constructor for each.

use vstd::prelude::*;

verus! {

/// The column name `team`.
pub open spec fn s_team() -> Seq<u8> {
    seq![116u8, 101u8, 97u8, 109u8]
}

/// Builds the column name `team`.
pub fn name_team() -> (r: Vec<u8>)
    ensures
        r@ == s_team(),
{
    let v: Vec<u8> = vec![116u8, 101u8, 97u8, 109u8];
    proof {
        assert(v@ =~= s_team());
    }
    v
}

/// The column name `opponent`.
pub open spec fn s_opponent() -> Seq<u8> {
    seq![111u8, 112u8, 112u8, 111u8, 110u8, 101u8, 110u8, 116u8]
}

/// Builds the column name `opponent`.
pub fn name_opponent() -> (r: Vec<u8>)
    ensures
        r@ == s_opponent(),
{
    let v: Vec<u8> = vec![111u8, 112u8, 112u8, 111u8, 110u8, 101u8, 110u8, 116u8];
    proof {
        assert(v@ =~= s_opponent());
    }
    v
}

/// The column name `arena`.
pub open spec fn s_arena() -> Seq<u8> {
    seq![97u8, 114u8, 101u8, 110u8, 97u8]
}

/// Builds the column name `arena`.
pub fn name_arena() -> (r: Vec<u8>)
    ensures
        r@ == s_arena(),
{
    let v: Vec<u8> = vec![97u8, 114u8, 101u8, 110u8, 97u8];
    proof {
        assert(v@ =~= s_arena());
    }
    v
}

/// The column name `gameMode`.
pub open spec fn s_game_mode() -> Seq<u8> {
    seq![103u8, 97u8, 109u8, 101u8, 77u8, 111u8, 100u8, 101u8]
}

/// Builds the column name `gameMode`.
pub fn name_game_mode() -> (r: Vec<u8>)
    ensures
        r@ == s_game_mode(),
{
    let v: Vec<u8> = vec![103u8, 97u8, 109u8, 101u8, 77u8, 111u8, 100u8, 101u8];
    proof {
        assert(v@ =~= s_game_mode());
    }
    v
}

/// The column name `arenaId`.
pub open spec fn s_arena_id() -> Seq<u8> {
    seq![97u8, 114u8, 101u8, 110u8, 97u8, 73u8, 100u8]
}

/// Builds the column name `arenaId`.
pub fn name_arena_id() -> (r: Vec<u8>)
    ensures
        r@ == s_arena_id(),
{
    let v: Vec<u8> = vec![97u8, 114u8, 101u8, 110u8, 97u8, 73u8, 100u8];
    proof {
        assert(v@ =~= s_arena_id());
    }
    v
}

/// The column name `arenaName`.
pub open spec fn s_arena_name() -> Seq<u8> {
    seq![97u8, 114u8, 101u8, 110u8, 97u8, 78u8, 97u8, 109u8, 101u8]
}

/// Builds the column name `arenaName`.
pub fn name_arena_name() -> (r: Vec<u8>)
    ensures
        r@ == s_arena_name(),
{
    let v: Vec<u8> = vec![97u8, 114u8, 101u8, 110u8, 97u8, 78u8, 97u8, 109u8, 101u8];
    proof {
        assert(v@ =~= s_arena_name());
    }
    v
}

/// The column name `gamemodeId`.
pub open spec fn s_gamemode_id() -> Seq<u8> {
    seq![103u8, 97u8, 109u8, 101u8, 109u8, 111u8, 100u8, 101u8, 73u8, 100u8]
}

/// Builds the column name `gamemodeId`.
pub fn name_gamemode_id() -> (r: Vec<u8>)
    ensures
        r@ == s_gamemode_id(),
{
    let v: Vec<u8> = vec![103u8, 97u8, 109u8, 101u8, 109u8, 111u8, 100u8, 101u8, 73u8, 100u8];
    proof {
        assert(v@ =~= s_gamemode_id());
    }
    v
}

/// The column name `gamemodeName`.
pub open spec fn s_gamemode_name() -> Seq<u8> {
    seq![103u8, 97u8, 109u8, 101u8, 109u8, 111u8, 100u8, 101u8, 78u8, 97u8, 109u8, 101u8]
}

/// Builds the column name `gamemodeName`.
pub fn name_gamemode_name() -> (r: Vec<u8>)
    ensures
        r@ == s_gamemode_name(),
{
    let v: Vec<u8> = vec![103u8, 97u8, 109u8, 101u8, 109u8, 111u8, 100u8, 101u8, 78u8, 97u8, 109u8, 101u8];
    proof {
        assert(v@ =~= s_gamemode_name());
    }
    v
}

/// The column name `teamTag`.
pub open spec fn s_team_tag() -> Seq<u8> {
    seq![116u8, 101u8, 97u8, 109u8, 84u8, 97u8, 103u8]
}

/// Builds the column name `teamTag`.
pub fn name_team_tag() -> (r: Vec<u8>)
    ensures
        r@ == s_team_tag(),
{
    let v: Vec<u8> = vec![116u8, 101u8, 97u8, 109u8, 84u8, 97u8, 103u8];
    proof {
        assert(v@ =~= s_team_tag());
    }
    v
}

/// The column name `teamName`.
pub open spec fn s_team_name() -> Seq<u8> {
    seq![116u8, 101u8, 97u8, 109u8, 78u8, 97u8, 109u8, 101u8]
}

/// Builds the column name `teamName`.
pub fn name_team_name() -> (r: Vec<u8>)
    ensures
        r@ == s_team_name(),
{
    let v: Vec<u8> = vec![116u8, 101u8, 97u8, 109u8, 78u8, 97u8, 109u8, 101u8];
    proof {
        assert(v@ =~= s_team_name());
    }
    v
}

/// The column name `teamStartingTrophies`.
pub open spec fn s_team_starting_trophies() -> Seq<u8> {
    seq![116u8, 101u8, 97u8, 109u8, 83u8, 116u8, 97u8, 114u8, 116u8, 105u8, 110u8, 103u8, 84u8, 114u8, 111u8, 112u8, 104u8, 105u8, 101u8, 115u8]
}

/// Builds the column name `teamStartingTrophies`.
pub fn name_team_starting_trophies() -> (r: Vec<u8>)
    ensures
        r@ == s_team_starting_trophies(),
{
    let v: Vec<u8> = vec![116u8, 101u8, 97u8, 109u8, 83u8, 116u8, 97u8, 114u8, 116u8, 105u8, 110u8, 103u8, 84u8, 114u8, 111u8, 112u8, 104u8, 105u8, 101u8, 115u8];
    proof {
        assert(v@ =~= s_team_starting_trophies());
    }
    v
}

/// The column name `teamTrophyChange`.
pub open spec fn s_team_trophy_change() -> Seq<u8> {
    seq![116u8, 101u8, 97u8, 109u8, 84u8, 114u8, 111u8, 112u8, 104u8, 121u8, 67u8, 104u8, 97u8, 110u8, 103u8, 101u8]
}

/// Builds the column name `teamTrophyChange`.
pub fn name_team_trophy_change() -> (r: Vec<u8>)
    ensures
        r@ == s_team_trophy_change(),
{
    let v: Vec<u8> = vec![116u8, 101u8, 97u8, 109u8, 84u8, 114u8, 111u8, 112u8, 104u8, 121u8, 67u8, 104u8, 97u8, 110u8, 103u8, 101u8];
    proof {
        assert(v@ =~= s_team_trophy_change());
    }
    v
}

/// The column name `teamCrowns`.
pub open spec fn s_team_crowns() -> Seq<u8> {
    seq![116u8, 101u8, 97u8, 109u8, 67u8, 114u8, 111u8, 119u8, 110u8, 115u8]
}

/// Builds the column name `teamCrowns`.
pub fn name_team_crowns() -> (r: Vec<u8>)
    ensures
        r@ == s_team_crowns(),
{
    let v: Vec<u8> = vec![116u8, 101u8, 97u8, 109u8, 67u8, 114u8, 111u8, 119u8, 110u8, 115u8];
    proof {
        assert(v@ =~= s_team_crowns());
    }
    v
}

/// The column name `teamKingTowerHitPoints`.
pub open spec fn s_team_king_tower_hit_points() -> Seq<u8> {
    seq![116u8, 101u8, 97u8, 109u8, 75u8, 105u8, 110u8, 103u8, 84u8, 111u8, 119u8, 101u8, 114u8, 72u8, 105u8, 116u8, 80u8, 111u8, 105u8, 110u8, 116u8, 115u8]
}

/// Builds the column name `teamKingTowerHitPoints`.
pub fn name_team_king_tower_hit_points() -> (r: Vec<u8>)
    ensures
        r@ == s_team_king_tower_hit_points(),
{
    let v: Vec<u8> = vec![116u8, 101u8, 97u8, 109u8, 75u8, 105u8, 110u8, 103u8, 84u8, 111u8, 119u8, 101u8, 114u8, 72u8, 105u8, 116u8, 80u8, 111u8, 105u8, 110u8, 116u8, 115u8];
    proof {
        assert(v@ =~= s_team_king_tower_hit_points());
    }
    v
}

/// The column name `teamPrincessTowerHitPoints`.
pub open spec fn s_team_princess_tower_hit_points() -> Seq<u8> {
    seq![116u8, 101u8, 97u8, 109u8, 80u8, 114u8, 105u8, 110u8, 99u8, 101u8, 115u8, 115u8, 84u8, 111u8, 119u8, 101u8, 114u8, 72u8, 105u8, 116u8, 80u8, 111u8, 105u8, 110u8, 116u8, 115u8]
}

/// Builds the column name `teamPrincessTowerHitPoints`.
pub fn name_team_princess_tower_hit_points() -> (r: Vec<u8>)
    ensures
        r@ == s_team_princess_tower_hit_points(),
{
    let v: Vec<u8> = vec![116u8, 101u8, 97u8, 109u8, 80u8, 114u8, 105u8, 110u8, 99u8, 101u8, 115u8, 115u8, 84u8, 111u8, 119u8, 101u8, 114u8, 72u8, 105u8, 116u8, 80u8, 111u8, 105u8, 110u8, 116u8, 115u8];
    proof {
        assert(v@ =~= s_team_princess_tower_hit_points());
    }
    v
}

/// The column name `teamClan`.
pub open spec fn s_team_clan() -> Seq<u8> {
    seq![116u8, 101u8, 97u8, 109u8, 67u8, 108u8, 97u8, 110u8]
}

/// Builds the column name `teamClan`.
pub fn name_team_clan() -> (r: Vec<u8>)
    ensures
        r@ == s_team_clan(),
{
    let v: Vec<u8> = vec![116u8, 101u8, 97u8, 109u8, 67u8, 108u8, 97u8, 110u8];
    proof {
        assert(v@ =~= s_team_clan());
    }
    v
}

/// The column name `teamCards`.
pub open spec fn s_team_cards() -> Seq<u8> {
    seq![116u8, 101u8, 97u8, 109u8, 67u8, 97u8, 114u8, 100u8, 115u8]
}

/// Builds the column name `teamCards`.
pub fn name_team_cards() -> (r: Vec<u8>)
    ensures
        r@ == s_team_cards(),
{
    let v: Vec<u8> = vec![116u8, 101u8, 97u8, 109u8, 67u8, 97u8, 114u8, 100u8, 115u8];
    proof {
        assert(v@ =~= s_team_cards());
    }
    v
}

/// The column name `opponentTag`.
pub open spec fn s_opponent_tag() -> Seq<u8> {
    seq![111u8, 112u8, 112u8, 111u8, 110u8, 101u8, 110u8, 116u8, 84u8, 97u8, 103u8]
}

/// Builds the column name `opponentTag`.
pub fn name_opponent_tag() -> (r: Vec<u8>)
    ensures
        r@ == s_opponent_tag(),
{
    let v: Vec<u8> = vec![111u8, 112u8, 112u8, 111u8, 110u8, 101u8, 110u8, 116u8, 84u8, 97u8, 103u8];
    proof {
        assert(v@ =~= s_opponent_tag());
    }
    v
}

/// The column name `opponentName`.
pub open spec fn s_opponent_name() -> Seq<u8> {
    seq![111u8, 112u8, 112u8, 111u8, 110u8, 101u8, 110u8, 116u8, 78u8, 97u8, 109u8, 101u8]
}

/// Builds the column name `opponentName`.
pub fn name_opponent_name() -> (r: Vec<u8>)
    ensures
        r@ == s_opponent_name(),
{
    let v: Vec<u8> = vec![111u8, 112u8, 112u8, 111u8, 110u8, 101u8, 110u8, 116u8, 78u8, 97u8, 109u8, 101u8];
    proof {
        assert(v@ =~= s_opponent_name());
    }
    v
}

/// The column name `opponentStartingTrophies`.
pub open spec fn s_opponent_starting_trophies() -> Seq<u8> {
    seq![111u8, 112u8, 112u8, 111u8, 110u8, 101u8, 110u8, 116u8, 83u8, 116u8, 97u8, 114u8, 116u8, 105u8, 110u8, 103u8, 84u8, 114u8, 111u8, 112u8, 104u8, 105u8, 101u8, 115u8]
}

/// Builds the column name `opponentStartingTrophies`.
pub fn name_opponent_starting_trophies() -> (r: Vec<u8>)
    ensures
        r@ == s_opponent_starting_trophies(),
{
    let v: Vec<u8> = vec![111u8, 112u8, 112u8, 111u8, 110u8, 101u8, 110u8, 116u8, 83u8, 116u8, 97u8, 114u8, 116u8, 105u8, 110u8, 103u8, 84u8, 114u8, 111u8, 112u8, 104u8, 105u8, 101u8, 115u8];
    proof {
        assert(v@ =~= s_opponent_starting_trophies());
    }
    v
}

/// The column name `opponentTrophyChange`.
pub open spec fn s_opponent_trophy_change() -> Seq<u8> {
    seq![111u8, 112u8, 112u8, 111u8, 110u8, 101u8, 110u8, 116u8, 84u8, 114u8, 111u8, 112u8, 104u8, 121u8, 67u8, 104u8, 97u8, 110u8, 103u8, 101u8]
}

/// Builds the column name `opponentTrophyChange`.
pub fn name_opponent_trophy_change() -> (r: Vec<u8>)
    ensures
        r@ == s_opponent_trophy_change(),
{
    let v: Vec<u8> = vec![111u8, 112u8, 112u8, 111u8, 110u8, 101u8, 110u8, 116u8, 84u8, 114u8, 111u8, 112u8, 104u8, 121u8, 67u8, 104u8, 97u8, 110u8, 103u8, 101u8];
    proof {
        assert(v@ =~= s_opponent_trophy_change());
    }
    v
}

/// The column name `opponentCrowns`.
pub open spec fn s_opponent_crowns() -> Seq<u8> {
    seq![111u8, 112u8, 112u8, 111u8, 110u8, 101u8, 110u8, 116u8, 67u8, 114u8, 111u8, 119u8, 110u8, 115u8]
}

/// Builds the column name `opponentCrowns`.
pub fn name_opponent_crowns() -> (r: Vec<u8>)
    ensures
        r@ == s_opponent_crowns(),
{
    let v: Vec<u8> = vec![111u8, 112u8, 112u8, 111u8, 110u8, 101u8, 110u8, 116u8, 67u8, 114u8, 111u8, 119u8, 110u8, 115u8];
    proof {
        assert(v@ =~= s_opponent_crowns());
    }
    v
}

/// The column name `opponentKingTowerHitPoints`.
pub open spec fn s_opponent_king_tower_hit_points() -> Seq<u8> {
    seq![111u8, 112u8, 112u8, 111u8, 110u8, 101u8, 110u8, 116u8, 75u8, 105u8, 110u8, 103u8, 84u8, 111u8, 119u8, 101u8, 114u8, 72u8, 105u8, 116u8, 80u8, 111u8, 105u8, 110u8, 116u8, 115u8]
}

/// Builds the column name `opponentKingTowerHitPoints`.
pub fn name_opponent_king_tower_hit_points() -> (r: Vec<u8>)
    ensures
        r@ == s_opponent_king_tower_hit_points(),
{
    let v: Vec<u8> = vec![111u8, 112u8, 112u8, 111u8, 110u8, 101u8, 110u8, 116u8, 75u8, 105u8, 110u8, 103u8, 84u8, 111u8, 119u8, 101u8, 114u8, 72u8, 105u8, 116u8, 80u8, 111u8, 105u8, 110u8, 116u8, 115u8];
    proof {
        assert(v@ =~= s_opponent_king_tower_hit_points());
    }
    v
}

/// The column name `opponentPrincessTowerHitPoints`.
pub open spec fn s_opponent_princess_tower_hit_points() -> Seq<u8> {
    seq![111u8, 112u8, 112u8, 111u8, 110u8, 101u8, 110u8, 116u8, 80u8, 114u8, 105u8, 110u8, 99u8, 101u8, 115u8, 115u8, 84u8, 111u8, 119u8, 101u8, 114u8, 72u8, 105u8, 116u8, 80u8, 111u8, 105u8, 110u8, 116u8, 115u8]
}

/// Builds the column name `opponentPrincessTowerHitPoints`.
pub fn name_opponent_princess_tower_hit_points() -> (r: Vec<u8>)
    ensures
        r@ == s_opponent_princess_tower_hit_points(),
{
    let v: Vec<u8> = vec![111u8, 112u8, 112u8, 111u8, 110u8, 101u8, 110u8, 116u8, 80u8, 114u8, 105u8, 110u8, 99u8, 101u8, 115u8, 115u8, 84u8, 111u8, 119u8, 101u8, 114u8, 72u8, 105u8, 116u8, 80u8, 111u8, 105u8, 110u8, 116u8, 115u8];
    proof {
        assert(v@ =~= s_opponent_princess_tower_hit_points());
    }
    v
}

/// The column name `opponentClan`.
pub open spec fn s_opponent_clan() -> Seq<u8> {
    seq![111u8, 112u8, 112u8, 111u8, 110u8, 101u8, 110u8, 116u8, 67u8, 108u8, 97u8, 110u8]
}

/// Builds the column name `opponentClan`.
pub fn name_opponent_clan() -> (r: Vec<u8>)
    ensures
        r@ == s_opponent_clan(),
{
    let v: Vec<u8> = vec![111u8, 112u8, 112u8, 111u8, 110u8, 101u8, 110u8, 116u8, 67u8, 108u8, 97u8, 110u8];
    proof {
        assert(v@ =~= s_opponent_clan());
    }
    v
}

/// The column name `opponentCards`.
pub open spec fn s_opponent_cards() -> Seq<u8> {
    seq![111u8, 112u8, 112u8, 111u8, 110u8, 101u8, 110u8, 116u8, 67u8, 97u8, 114u8, 100u8, 115u8]
}

/// Builds the column name `opponentCards`.
pub fn name_opponent_cards() -> (r: Vec<u8>)
    ensures
        r@ == s_opponent_cards(),
{
    let v: Vec<u8> = vec![111u8, 112u8, 112u8, 111u8, 110u8, 101u8, 110u8, 116u8, 67u8, 97u8, 114u8, 100u8, 115u8];
    proof {
        assert(v@ =~= s_opponent_cards());
    }
    v
}

/// The column name `teamClanTag`.
pub open spec fn s_team_clan_tag() -> Seq<u8> {
    seq![116u8, 101u8, 97u8, 109u8, 67u8, 108u8, 97u8, 110u8, 84u8, 97u8, 103u8]
}

/// Builds the column name `teamClanTag`.
pub fn name_team_clan_tag() -> (r: Vec<u8>)
    ensures
        r@ == s_team_clan_tag(),
{
    let v: Vec<u8> = vec![116u8, 101u8, 97u8, 109u8, 67u8, 108u8, 97u8, 110u8, 84u8, 97u8, 103u8];
    proof {
        assert(v@ =~= s_team_clan_tag());
    }
    v
}

/// The column name `teamClanName`.
pub open spec fn s_team_clan_name() -> Seq<u8> {
    seq![116u8, 101u8, 97u8, 109u8, 67u8, 108u8, 97u8, 110u8, 78u8, 97u8, 109u8, 101u8]
}

/// Builds the column name `teamClanName`.
pub fn name_team_clan_name() -> (r: Vec<u8>)
    ensures
        r@ == s_team_clan_name(),
{
    let v: Vec<u8> = vec![116u8, 101u8, 97u8, 109u8, 67u8, 108u8, 97u8, 110u8, 78u8, 97u8, 109u8, 101u8];
    proof {
        assert(v@ =~= s_team_clan_name());
    }
    v
}

/// The column name `teamClanBadgeId`.
pub open spec fn s_team_clan_badge_id() -> Seq<u8> {
    seq![116u8, 101u8, 97u8, 109u8, 67u8, 108u8, 97u8, 110u8, 66u8, 97u8, 100u8, 103u8, 101u8, 73u8, 100u8]
}

/// Builds the column name `teamClanBadgeId`.
pub fn name_team_clan_badge_id() -> (r: Vec<u8>)
    ensures
        r@ == s_team_clan_badge_id(),
{
    let v: Vec<u8> = vec![116u8, 101u8, 97u8, 109u8, 67u8, 108u8, 97u8, 110u8, 66u8, 97u8, 100u8, 103u8, 101u8, 73u8, 100u8];
    proof {
        assert(v@ =~= s_team_clan_badge_id());
    }
    v
}

/// The column name `opponentClanTag`.
pub open spec fn s_opponent_clan_tag() -> Seq<u8> {
    seq![111u8, 112u8, 112u8, 111u8, 110u8, 101u8, 110u8, 116u8, 67u8, 108u8, 97u8, 110u8, 84u8, 97u8, 103u8]
}

/// Builds the column name `opponentClanTag`.
pub fn name_opponent_clan_tag() -> (r: Vec<u8>)
    ensures
        r@ == s_opponent_clan_tag(),
{
    let v: Vec<u8> = vec![111u8, 112u8, 112u8, 111u8, 110u8, 101u8, 110u8, 116u8, 67u8, 108u8, 97u8, 110u8, 84u8, 97u8, 103u8];
    proof {
        assert(v@ =~= s_opponent_clan_tag());
    }
    v
}

/// The column name `opponentClanName`.
pub open spec fn s_opponent_clan_name() -> Seq<u8> {
    seq![111u8, 112u8, 112u8, 111u8, 110u8, 101u8, 110u8, 116u8, 67u8, 108u8, 97u8, 110u8, 78u8, 97u8, 109u8, 101u8]
}

/// Builds the column name `opponentClanName`.
pub fn name_opponent_clan_name() -> (r: Vec<u8>)
    ensures
        r@ == s_opponent_clan_name(),
{
    let v: Vec<u8> = vec![111u8, 112u8, 112u8, 111u8, 110u8, 101u8, 110u8, 116u8, 67u8, 108u8, 97u8, 110u8, 78u8, 97u8, 109u8, 101u8];
    proof {
        assert(v@ =~= s_opponent_clan_name());
    }
    v
}

/// The column name `opponentClanBadgeId`.
pub open spec fn s_opponent_clan_badge_id() -> Seq<u8> {
    seq![111u8, 112u8, 112u8, 111u8, 110u8, 101u8, 110u8, 116u8, 67u8, 108u8, 97u8, 110u8, 66u8, 97u8, 100u8, 103u8, 101u8, 73u8, 100u8]
}

/// Builds the column name `opponentClanBadgeId`.
pub fn name_opponent_clan_badge_id() -> (r: Vec<u8>)
    ensures
        r@ == s_opponent_clan_badge_id(),
{
    let v: Vec<u8> = vec![111u8, 112u8, 112u8, 111u8, 110u8, 101u8, 110u8, 116u8, 67u8, 108u8, 97u8, 110u8, 66u8, 97u8, 100u8, 103u8, 101u8, 73u8, 100u8];
    proof {
        assert(v@ =~= s_opponent_clan_badge_id());
    }
    v
}

/// The column name `winner`.
pub open spec fn s_winner() -> Seq<u8> {
    seq![119u8, 105u8, 110u8, 110u8, 101u8, 114u8]
}

/// Builds the column name `winner`.
pub fn name_winner() -> (r: Vec<u8>)
    ensures
        r@ == s_winner(),
{
    let v: Vec<u8> = vec![119u8, 105u8, 110u8, 110u8, 101u8, 114u8];
    proof {
        assert(v@ =~= s_winner());
    }
    v
}

/// The column name `battleTime`.
pub open spec fn s_battle_time() -> Seq<u8> {
    seq![98u8, 97u8, 116u8, 116u8, 108u8, 101u8, 84u8, 105u8, 109u8, 101u8]
}

/// Builds the column name `battleTime`.
pub fn name_battle_time() -> (r: Vec<u8>)
    ensures
        r@ == s_battle_time(),
{
    let v: Vec<u8> = vec![98u8, 97u8, 116u8, 116u8, 108u8, 101u8, 84u8, 105u8, 109u8, 101u8];
    proof {
        assert(v@ =~= s_battle_time());
    }
    v
}

} // verus!
