//! The message catalog: every failure kind maps, per language, to a fixed
//! human-readable string.

use vstd::prelude::*;

use crate::error::ServerError;
use crate::protocol::Language;

verus! {

/// Text of the greeting sent to every newly connected session.
pub open spec fn hello_message_text(lang: Language) -> Seq<char> {
    match lang {
        Language::English => "You are now connected to the Warhorse server"@,
        Language::Spanish => "Ahora estás conectado al servidor de Warhorse"@,
        Language::French => "Vous êtes maintenant connecté au serveur Warhorse"@,
    }
}

/// The greeting sent to every newly connected session.
pub fn hello_message(lang: Language) -> (r: String)
    ensures
        r@ == hello_message_text(lang),
{
    match lang {
        Language::English => "You are now connected to the Warhorse server".to_owned(),
        Language::Spanish => "Ahora estás conectado al servidor de Warhorse".to_owned(),
        Language::French => "Vous êtes maintenant connecté au serveur Warhorse".to_owned(),
    }
}

/// Text reported when a login identity or password is not accepted.
pub open spec fn invalid_login_text(lang: Language) -> Seq<char> {
    match lang {
        Language::English => "Invalid login, please ensure the information is correct"@,
        Language::Spanish => "Inicio de sesión inválido, asegúrese de que la información sea correcta"@,
        Language::French => "Connexion invalide, veuillez vous assurer que les informations sont correctes"@,
    }
}

/// The error for a login attempt that matched no account.
pub fn invalid_login(lang: Language) -> (r: ServerError)
    ensures
        r.0@ == invalid_login_text(lang),
{
    match lang {
        Language::English => ServerError(
            "Invalid login, please ensure the information is correct".to_owned(),
        ),
        Language::Spanish => ServerError(
            "Inicio de sesión inválido, asegúrese de que la información sea correcta".to_owned(),
        ),
        Language::French => ServerError(
            "Connexion invalide, veuillez vous assurer que les informations sont correctes".to_owned(),
        ),
    }
}

/// Text reported when the requested account name is already in use.
pub open spec fn account_name_already_exists_text(lang: Language) -> Seq<char> {
    match lang {
        Language::English => "Account name already exists"@,
        Language::Spanish => "El nombre de la cuenta ya existe"@,
        Language::French => "Le nom du compte existe déjà"@,
    }
}

/// The error for a registration whose account name is already taken.
pub fn account_name_already_exists(lang: Language) -> (r: ServerError)
    ensures
        r.0@ == account_name_already_exists_text(lang),
{
    match lang {
        Language::English => ServerError("Account name already exists".to_owned()),
        Language::Spanish => ServerError("El nombre de la cuenta ya existe".to_owned()),
        Language::French => ServerError("Le nom du compte existe déjà".to_owned()),
    }
}

/// Text reported when the requested email is already in use.
pub open spec fn email_already_exists_text(lang: Language) -> Seq<char> {
    match lang {
        Language::English => "Email already exists"@,
        Language::Spanish => "El correo electrónico ya existe"@,
        Language::French => "L'email existe déjà"@,
    }
}

/// The error for a registration whose email is already taken.
pub fn email_already_exists(lang: Language) -> (r: ServerError)
    ensures
        r.0@ == email_already_exists_text(lang),
{
    match lang {
        Language::English => ServerError("Email already exists".to_owned()),
        Language::Spanish => ServerError("El correo electrónico ya existe".to_owned()),
        Language::French => ServerError("L'email existe déjà".to_owned()),
    }
}

/// Text reported when an email does not pass validation.
pub open spec fn invalid_email_text(lang: Language) -> Seq<char> {
    match lang {
        Language::English => "Invalid email"@,
        Language::Spanish => "Correo electrónico inválido"@,
        Language::French => "Email invalide"@,
    }
}

/// The error for a registration whose email is not well-formed.
pub fn invalid_email(lang: Language) -> (r: ServerError)
    ensures
        r.0@ == invalid_email_text(lang),
{
    match lang {
        Language::English => ServerError("Invalid email".to_owned()),
        Language::Spanish => ServerError("Correo electrónico inválido".to_owned()),
        Language::French => ServerError("Email invalide".to_owned()),
    }
}

/// Text reported when a password is too short.
pub open spec fn invalid_password_text(lang: Language) -> Seq<char> {
    match lang {
        Language::English => "Passwords must be at least 8 characters long"@,
        Language::Spanish => "Las contraseñas deben tener al menos 8 caracteres"@,
        Language::French => "Les mots de passe doivent comporter au moins 8 caractères"@,
    }
}

/// The error for a registration whose password is too short.
pub fn invalid_password(lang: Language) -> (r: ServerError)
    ensures
        r.0@ == invalid_password_text(lang),
{
    match lang {
        Language::English => ServerError("Passwords must be at least 8 characters long".to_owned()),
        Language::Spanish => ServerError(
            "Las contraseñas deben tener al menos 8 caracteres".to_owned(),
        ),
        Language::French => ServerError(
            "Les mots de passe doivent comporter au moins 8 caractères".to_owned(),
        ),
    }
}

/// Text reported when an account name has an unacceptable length.
pub open spec fn invalid_account_name_text(lang: Language) -> Seq<char> {
    match lang {
        Language::English => "Account names must be between 3 and 20 characters long"@,
        Language::Spanish => "Los nombres de cuenta deben tener entre 3 y 20 caracteres"@,
        Language::French => "Les noms de compte doivent comporter entre 3 et 20 caractères"@,
    }
}

/// The error for a registration whose account name has a bad length.
pub fn invalid_account_name(lang: Language) -> (r: ServerError)
    ensures
        r.0@ == invalid_account_name_text(lang),
{
    match lang {
        Language::English => ServerError(
            "Account names must be between 3 and 20 characters long".to_owned(),
        ),
        Language::Spanish => ServerError(
            "Los nombres de cuenta deben tener entre 3 y 20 caracteres".to_owned(),
        ),
        Language::French => ServerError(
            "Les noms de compte doivent comporter entre 3 et 20 caractères".to_owned(),
        ),
    }
}

/// Text reported when a display name has an unacceptable length.
pub open spec fn invalid_display_name_text(lang: Language) -> Seq<char> {
    match lang {
        Language::English => "Display names must be between 3 and 20 characters long"@,
        Language::Spanish => "Los nombres de visualización deben tener entre 3 y 20 caracteres"@,
        Language::French => "Les noms d'affichage doivent comporter entre 3 et 20 caractères"@,
    }
}

/// The error for a registration whose display name has a bad length.
pub fn invalid_display_name(lang: Language) -> (r: ServerError)
    ensures
        r.0@ == invalid_display_name_text(lang),
{
    match lang {
        Language::English => ServerError(
            "Display names must be between 3 and 20 characters long".to_owned(),
        ),
        Language::Spanish => ServerError(
            "Los nombres de visualización deben tener entre 3 y 20 caracteres".to_owned(),
        ),
        Language::French => ServerError(
            "Les noms d'affichage doivent comporter entre 3 et 20 caractères".to_owned(),
        ),
    }
}

/// Text reported when the two users are already friends.
pub open spec fn already_friends_text(lang: Language) -> Seq<char> {
    match lang {
        Language::English => "You are already friends with this user"@,
        Language::Spanish => "Ya eres amigo de este usuario"@,
        Language::French => "Vous êtes déjà ami avec cet utilisateur"@,
    }
}

/// The error for an action between users who are already friends.
pub fn already_friends(lang: Language) -> (r: ServerError)
    ensures
        r.0@ == already_friends_text(lang),
{
    match lang {
        Language::English => ServerError("You are already friends with this user".to_owned()),
        Language::Spanish => ServerError("Ya eres amigo de este usuario".to_owned()),
        Language::French => ServerError("Vous êtes déjà ami avec cet utilisateur".to_owned()),
    }
}

/// Text reported when a block in either direction forbids the action.
pub open spec fn user_is_blocked_text(lang: Language) -> Seq<char> {
    match lang {
        Language::English => "This user is blocked"@,
        Language::Spanish => "Este usuario está bloqueado"@,
        Language::French => "Cet utilisateur est bloqué"@,
    }
}

/// The error for an action forbidden by a block in either direction.
pub fn user_is_blocked(lang: Language) -> (r: ServerError)
    ensures
        r.0@ == user_is_blocked_text(lang),
{
    match lang {
        Language::English => ServerError("This user is blocked".to_owned()),
        Language::Spanish => ServerError("Este usuario está bloqueado".to_owned()),
        Language::French => ServerError("Cet utilisateur est bloqué".to_owned()),
    }
}

/// Text reported when the named user does not exist.
pub open spec fn unknown_user_text(lang: Language) -> Seq<char> {
    match lang {
        Language::English => "Unknown user"@,
        Language::Spanish => "Usuario desconocido"@,
        Language::French => "Utilisateur inconnu"@,
    }
}

/// The error for an action naming a user that does not exist.
pub fn unknown_user(lang: Language) -> (r: ServerError)
    ensures
        r.0@ == unknown_user_text(lang),
{
    match lang {
        Language::English => ServerError("Unknown user".to_owned()),
        Language::Spanish => ServerError("Usuario desconocido".to_owned()),
        Language::French => ServerError("Utilisateur inconnu".to_owned()),
    }
}

/// Text reported when the acting session is not logged in.
pub open spec fn not_connected_text(lang: Language) -> Seq<char> {
    match lang {
        Language::English => "You are not connected"@,
        Language::Spanish => "No estás conectado"@,
        Language::French => "Vous n'êtes pas connecté"@,
    }
}

/// The error for a command from a session that is not logged in.
pub fn not_connected(lang: Language) -> (r: ServerError)
    ensures
        r.0@ == not_connected_text(lang),
{
    match lang {
        Language::English => ServerError("You are not connected".to_owned()),
        Language::Spanish => ServerError("No estás conectado".to_owned()),
        Language::French => ServerError("Vous n'êtes pas connecté".to_owned()),
    }
}

/// Text reported when the two users are not friends.
pub open spec fn not_friends_text(lang: Language) -> Seq<char> {
    match lang {
        Language::English => "You are not friends with this user"@,
        Language::Spanish => "No eres amigo de este usuario"@,
        Language::French => "Vous n'êtes pas ami avec cet utilisateur"@,
    }
}

/// The error for a whisper to a user who is not a friend.
pub fn not_friends(lang: Language) -> (r: ServerError)
    ensures
        r.0@ == not_friends_text(lang),
{
    match lang {
        Language::English => ServerError("You are not friends with this user".to_owned()),
        Language::Spanish => ServerError("No eres amigo de este usuario".to_owned()),
        Language::French => ServerError("Vous n'êtes pas ami avec cet utilisateur".to_owned()),
    }
}

/// Text reported when the sender is not a member of the room.
pub open spec fn not_in_room_text(lang: Language) -> Seq<char> {
    match lang {
        Language::English => "You are not in this room"@,
        Language::Spanish => "No estás en esta sala"@,
        Language::French => "Vous n'êtes pas dans cette salle"@,
    }
}

/// The error for a room message from a sender who is not in the room.
pub fn not_in_room(lang: Language) -> (r: ServerError)
    ensures
        r.0@ == not_in_room_text(lang),
{
    match lang {
        Language::English => ServerError("You are not in this room".to_owned()),
        Language::Spanish => ServerError("No estás en esta sala".to_owned()),
        Language::French => ServerError("Vous n'êtes pas dans cette salle".to_owned()),
    }
}

/// Text reported when a user targets themselves.
pub open spec fn self_targeted_text(lang: Language) -> Seq<char> {
    match lang {
        Language::English => "You cannot target yourself"@,
        Language::Spanish => "No puedes elegirte a ti mismo"@,
        Language::French => "Vous ne pouvez pas vous cibler vous-même"@,
    }
}

/// The error for an action whose target is the acting user.
pub fn self_targeted(lang: Language) -> (r: ServerError)
    ensures
        r.0@ == self_targeted_text(lang),
{
    match lang {
        Language::English => ServerError("You cannot target yourself".to_owned()),
        Language::Spanish => ServerError("No puedes elegirte a ti mismo".to_owned()),
        Language::French => ServerError("Vous ne pouvez pas vous cibler vous-même".to_owned()),
    }
}

/// Text reported for an unexpected internal failure.
pub open spec fn internal_error_text(lang: Language) -> Seq<char> {
    match lang {
        Language::English => "Internal server error"@,
        Language::Spanish => "Error interno del servidor"@,
        Language::French => "Erreur interne du serveur"@,
    }
}

/// The error for an unexpected internal failure.
pub fn internal_error(lang: Language) -> (r: ServerError)
    ensures
        r.0@ == internal_error_text(lang),
{
    match lang {
        Language::English => ServerError("Internal server error".to_owned()),
        Language::Spanish => ServerError("Error interno del servidor".to_owned()),
        Language::French => ServerError("Erreur interne du serveur".to_owned()),
    }
}

} // verus!
