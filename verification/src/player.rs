//! The player whose name and avatar the video shows.

use crate::config::RenderConfig;
use vstd::prelude::*;

verus! {

/// A player: the picture `A` of the host, a number, and a rating.
pub struct BasicPlayer<S, A> {
    pub avatar: Option<A>,
    pub id: i32,
    pub rks: S,
}

/// The file to read the avatar from, if one is configured.
pub fn avatar_path<S, D, C>(config: &RenderConfig<S, D, C>) -> (r: Option<String>)
    ensures
        r.deep_view() == config.player_avatar.deep_view(),
{
    config.player_avatar.clone()
}

/// The player's avatar could not be read; `cause` is the host's error.
#[derive(Debug)]
pub struct AvatarError<E> {
    pub cause: E,
}

impl<E> AvatarError<E> {
    /// The key of the translated message for this error.
    pub fn key(&self) -> (r: &'static str)
        ensures
            r@ == "load-avatar-failed"@,
    {
        "load-avatar-failed"
    }
}

/// The player that `config` describes. `loaded` is what reading the avatar gave: it has to be
/// there where an avatar is configured, and is not looked at where none is. An avatar that could
/// not be read is an error, with the cause, and never a player without an avatar.
pub fn build_player<S: Copy, D, C, A, E>(
    config: &RenderConfig<S, D, C>,
    loaded: Option<Result<A, E>>,
) -> (r: Result<BasicPlayer<S, A>, AvatarError<E>>)
    requires
        config.player_avatar is Some ==> loaded is Some,
    ensures
        match r {
            Ok(player) => {
                &&& player.id == 0
                &&& player.rks == config.player_rks
                &&& config.player_avatar is None ==> player.avatar is None
                &&& config.player_avatar is Some ==> player.avatar is Some && loaded == Some(
                    Ok::<A, E>(player.avatar->0),
                )
            },
            Err(e) => config.player_avatar is Some && loaded == Some(Err::<A, E>(e.cause)),
        },
{
    let avatar = match &config.player_avatar {
        None => None,
        Some(_) => match loaded {
            Some(Ok(picture)) => Some(picture),
            Some(Err(cause)) => {
                return Err(AvatarError { cause });
            },
            None => None,
        },
    };
    Ok(BasicPlayer { avatar, id: 0, rks: config.player_rks })
}

/// A player is shown without an avatar exactly if none is configured, and with the picture that
/// was read where one is; an avatar that cannot be read is never passed over.
pub proof fn lemma_avatar_is_never_passed_over<S: Copy, D, C, A, E>(
    config: RenderConfig<S, D, C>,
    path: Option<String>,
    loaded: Option<Result<A, E>>,
    r: Result<BasicPlayer<S, A>, AvatarError<E>>,
)
    requires
        config.player_avatar is Some ==> loaded is Some,
        call_ensures(avatar_path::<S, D, C>, (&config,), path),
        call_ensures(build_player::<S, D, C, A, E>, (&config, loaded), r),
    ensures
        path is Some <==> config.player_avatar is Some,
        path is Some ==> path->0@ == config.player_avatar->0@,
        path is None ==> r is Ok && r->Ok_0.avatar is None,
        path is Some ==> (r is Ok <==> loaded->0 is Ok),
        path is Some && r is Ok ==> r->Ok_0.avatar == Some(loaded->0->Ok_0),
        path is Some && r is Err ==> r->Err_0.cause == loaded->0->Err_0,
        r matches Ok(player) ==> player.id == 0 && player.rks == config.player_rks,
{
    assert(path.deep_view() == config.player_avatar.deep_view());
}

} // verus!
