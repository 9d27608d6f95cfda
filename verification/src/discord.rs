//! The chat notification actor: deciding which channels to create and
//! which messages to send.  The chat API calls themselves, the gateway
//! socket and the name sanitization are the caller's concern; the caller
//! performs the returned actions.

use vstd::prelude::*;
use vstd::string::StringExecFns;
use crate::keymap::{find_key, keys_unique, lemma_key_idx_props, map_has, map_val, upsert, upserted};
use crate::messages::{MessageValidator, MessageValidatorEvent, ValidatorEventType};
use crate::text::{dec_str, u64_to_string};

verus! {

/// When a validator's channel was last touched.
#[derive(Clone, Copy, PartialEq, Eq, Structural, Debug)]
pub struct BlockHeightTime {
    /// Epoch seconds.
    pub datetime: u64,
    pub height: Option<u64>,
}

/// A channel within a guild.
#[derive(Clone, Copy, PartialEq, Eq, Structural, Debug)]
pub struct GuildChannel {
    pub guild_id: u64,
    pub channel_id: u64,
}

/// One chat API call the caller must make.
#[derive(Debug)]
pub enum DiscordAction {
    /// Create a text channel named after the validator, with its operator
    /// address as the topic.
    CreateChannel { guild_id: u64, name: String, topic: String },
    /// Send a message to a channel.
    SendMessage { channel_id: u64, message: String, hash: Option<String> },
}

/// The chat notification actor.
pub struct DiscordValidatorActor {
    pub guild_id: Option<u64>,
    /// Channel name to its guild and id.
    pub channel_map: Vec<(String, GuildChannel)>,
    /// Operator address to when its channel was last seen.
    pub channel_last_seen: Vec<(String, BlockHeightTime)>,
    /// Operator address to when it was last alerted.
    pub channel_last_alert: Vec<(String, BlockHeightTime)>,
    /// Operator address to its channel id.
    pub validator_discord_map: Vec<(String, u64)>,
    /// Operator address to its moniker.
    pub validator_moniker_map: Vec<(String, String)>,
    pub token: String,
    pub connect_addr: String,
    pub announcement_channel: Option<GuildChannel>,
    pub max_retries: u64,
}

impl DiscordValidatorActor {
    /// Every map keeps its keys unique.
    pub open spec fn wf(&self) -> bool {
        &&& keys_unique(self.channel_map@)
        &&& keys_unique(self.channel_last_seen@)
        &&& keys_unique(self.channel_last_alert@)
        &&& keys_unique(self.validator_discord_map@)
        &&& keys_unique(self.validator_moniker_map@)
    }

    /// A fresh actor holding the credentials; the guild and its channels
    /// are learned from the gateway.
    pub fn create(token: String, connect_addr: String, max_retries: u64) -> (r:
        DiscordValidatorActor)
        ensures
            r.wf(),
            r.guild_id is None,
            r.announcement_channel is None,
            r.channel_map@.len() == 0,
            r.validator_discord_map@.len() == 0,
            r.validator_moniker_map@.len() == 0,
            r.token == token,
            r.connect_addr == connect_addr,
            r.max_retries == max_retries,
    {
        DiscordValidatorActor {
            guild_id: None,
            channel_map: Vec::new(),
            channel_last_seen: Vec::new(),
            channel_last_alert: Vec::new(),
            validator_discord_map: Vec::new(),
            validator_moniker_map: Vec::new(),
            token,
            connect_addr,
            announcement_channel: None,
            max_retries,
        }
    }

    /// Handle a validator refresh: remember its moniker, and when a guild
    /// is known but no channel carries the sanitized moniker yet, ask for
    /// one to be created with the operator address as topic.  The caller
    /// passes the sanitized channel name.
    pub fn handle_validator(&mut self, msg: &MessageValidator, sanitized: String) -> (r: Vec<
        DiscordAction,
    >)
        requires
            old(self).wf(),
        ensures
            final(self).wf(),
            final(self).validator_moniker_map@ == upserted(
                old(self).validator_moniker_map@,
                msg.operator_address,
                msg.validator.moniker,
            ),
            final(self).channel_map@ == old(self).channel_map@,
            final(self).validator_discord_map@ == old(self).validator_discord_map@,
            final(self).guild_id == old(self).guild_id,
            final(self).announcement_channel == old(self).announcement_channel,
            ({
                let wanted = old(self).guild_id matches Some(g) && !map_has(
                    old(self).channel_map@,
                    sanitized@,
                );
                if wanted {
                    r@.len() == 1 && (r@[0] matches DiscordAction::CreateChannel {
                        guild_id,
                        name,
                        topic,
                    } && ({
                        &&& Some(guild_id) == old(self).guild_id
                        &&& name == sanitized
                        &&& topic@ == msg.operator_address@
                    }))
                } else {
                    r@.len() == 0
                }
            }),
    {
        upsert(
            &mut self.validator_moniker_map,
            msg.operator_address.clone(),
            msg.validator.moniker.clone(),
        );
        let mut r: Vec<DiscordAction> = Vec::new();
        match self.guild_id {
            None => r,
            Some(guild_id) => {
                match find_key(&self.channel_map, sanitized.as_str()) {
                    Some(_) => r,
                    None => {
                        r.push(
                            DiscordAction::CreateChannel {
                                guild_id,
                                name: sanitized,
                                topic: msg.operator_address.clone(),
                            },
                        );
                        r
                    },
                }
            },
        }
    }

    /// Handle a validator alert: send it to the validator's channel when
    /// one is known (an unknown channel drops the message), prefixed with
    /// the height; warnings and worse are also announced on the
    /// announcement channel when one is configured.
    pub fn handle_validator_event(&mut self, msg: &MessageValidatorEvent) -> (r: Vec<
        DiscordAction,
    >)
        requires
            old(self).wf(),
        ensures
            final(self).wf(),
            *final(self) == *old(self),
            ({
                let known = map_has(old(self).validator_discord_map@, msg.operator_address@);
                let announce = old(self).announcement_channel is Some && (msg.event_type
                    == ValidatorEventType::WARN || msg.event_type == ValidatorEventType::ERROR
                    || msg.event_type == ValidatorEventType::CRITICAL);
                if known {
                    let channel = map_val(old(self).validator_discord_map@, msg.operator_address@);
                    &&& r@.len() == (if announce {
                        2int
                    } else {
                        1int
                    })
                    &&& (r@.last() matches DiscordAction::SendMessage {
                        channel_id,
                        message,
                        hash,
                    } && ({
                        &&& channel_id == channel
                        &&& message@ == "Height:"@ + dec_str(msg.height as int) + " "@
                            + msg.message@
                        &&& hash == msg.hash
                    }))
                    &&& announce ==> (r@[0] matches DiscordAction::SendMessage {
                        channel_id,
                        hash,
                        ..
                    } && ({
                        &&& Some(channel_id) == spec_channel_id(old(self).announcement_channel)
                        &&& hash == msg.hash
                    }))
                } else {
                    r@.len() == 0
                }
            }),
    {
        let mut r: Vec<DiscordAction> = Vec::new();
        let ghost dm = self.validator_discord_map@;
        match find_key(&self.validator_discord_map, msg.operator_address.as_str()) {
            None => r,
            Some(ci) => {
                proof {
                    lemma_key_idx_props(dm, msg.operator_address@);
                }
                let channel_id = self.validator_discord_map[ci].1;
                let moniker: String = match &msg.moniker {
                    Some(m) => m.clone(),
                    None => {
                        match find_key(&self.validator_moniker_map, msg.operator_address.as_str()) {
                            Some(mi) => self.validator_moniker_map[mi].1.clone(),
                            None => msg.operator_address.clone(),
                        }
                    },
                };
                let announce_to = match self.announcement_channel {
                    Some(ch) => {
                        let severe = match msg.event_type {
                            ValidatorEventType::WARN => Some("WARN @"),
                            ValidatorEventType::ERROR => Some("ERROR @"),
                            ValidatorEventType::CRITICAL => Some("CRITICAL @"),
                            _ => None,
                        };
                        match severe {
                            Some(word) => Some((ch.channel_id, word)),
                            None => None,
                        }
                    },
                    None => None,
                };
                if let Some((ann_channel, word)) = announce_to {
                    let ann_message = String::from_str(word).concat(
                        u64_to_string(msg.height).as_str(),
                    ).concat(" ").concat(moniker.as_str()).concat(" ").concat(msg.message.as_str());
                    r.push(
                        DiscordAction::SendMessage {
                            channel_id: ann_channel,
                            message: ann_message,
                            hash: clone_hash(&msg.hash),
                        },
                    );
                }
                let formatted = String::from_str("Height:").concat(
                    u64_to_string(msg.height).as_str(),
                ).concat(" ").concat(msg.message.as_str());
                r.push(
                    DiscordAction::SendMessage {
                        channel_id,
                        message: formatted,
                        hash: clone_hash(&msg.hash),
                    },
                );
                r
            },
        }
    }
}

/// The channel id of an optional channel.
pub open spec fn spec_channel_id(c: Option<GuildChannel>) -> Option<u64> {
    match c {
        Some(ch) => Some(ch.channel_id),
        None => None,
    }
}

/// Copy an optional transaction hash.
fn clone_hash(h: &Option<String>) -> (r: Option<String>)
    ensures
        r == h,
{
    match h {
        Some(s) => Some(s.clone()),
        None => None,
    }
}

} // verus!
