use vstd::prelude::*;

use crate::batching::BatchConfig;
use crate::pubsub::Offset;

verus! {

/// The retention period a stream asks for unless tuned otherwise: one day.
pub const DEFAULT_RETENTION_MS: u64 = 86400000;

/// Configuration every stream role shares: the topic path and how long the
/// broker should retain the topic's messages.
pub struct StreamCommon {
    pub topic: Vec<u8>,
    pub retention_policy_ms: u64,
}

/// A publisher under construction, before its encoder is chosen.
pub struct PublisherWantsEncoder {
    pub common: StreamCommon,
}

/// A publisher ready to open, with optional batching still configurable.
pub struct PublisherWantsOpen<E> {
    pub common: StreamCommon,
    pub encoder: E,
    pub batch_config: Option<BatchConfig>,
}

/// A subscriber under construction, before its decoder is chosen.
pub struct SubscriberWantsDecoder {
    pub common: StreamCommon,
}

/// A subscriber ready to open, with its starting position configurable.
pub struct SubscriberWantsOpen<D> {
    pub common: StreamCommon,
    pub decoder: D,
    pub offset: Offset,
}

/// A replier under construction, before its request decoder is chosen.
pub struct ReplierWantsRequestDecoder {
    pub common: StreamCommon,
}

/// A replier that decodes requests, before its reply encoder is chosen.
pub struct ReplierWantsReplyEncoder<D> {
    pub common: StreamCommon,
    pub decoder: D,
}

/// A replier that decodes requests and encodes replies, before its handler
/// is chosen.
pub struct ReplierWantsHandler<D, E> {
    pub common: StreamCommon,
    pub decoder: D,
    pub encoder: E,
}

/// A staged stream configuration: the type parameter says which choices are
/// still owed before the stream can open.
pub struct StreamBuilder<S> {
    pub state: S,
}

impl StreamBuilder<PublisherWantsEncoder> {
    /// Starts configuring a publisher for a topic.
    pub fn publisher(topic: Vec<u8>) -> (r: StreamBuilder<PublisherWantsEncoder>)
        ensures
            r.state.common.topic == topic,
            r.state.common.retention_policy_ms == DEFAULT_RETENTION_MS,
    {
        StreamBuilder {
            state: PublisherWantsEncoder {
                common: StreamCommon { topic, retention_policy_ms: DEFAULT_RETENTION_MS },
            },
        }
    }

    /// Chooses the encoder produced messages pass through before sending.
    pub fn with_encoder<E>(self, encoder: E) -> (r: StreamBuilder<PublisherWantsOpen<E>>)
        ensures
            r.state.common == self.state.common,
            r.state.encoder == encoder,
            r.state.batch_config is None,
    {
        StreamBuilder {
            state: PublisherWantsOpen { common: self.state.common, encoder, batch_config: None },
        }
    }
}

impl<E> StreamBuilder<PublisherWantsOpen<E>> {
    /// Opts the publisher into batching under the given tuning.
    pub fn with_batching(self, config: BatchConfig) -> (r: StreamBuilder<PublisherWantsOpen<E>>)
        ensures
            r.state.common == self.state.common,
            r.state.encoder == self.state.encoder,
            r.state.batch_config == Some(config),
    {
        StreamBuilder {
            state: PublisherWantsOpen {
                common: self.state.common,
                encoder: self.state.encoder,
                batch_config: Some(config),
            },
        }
    }

    /// Asks the broker to retain this topic's messages for `policy_ms`.
    pub fn retain(self, policy_ms: u64) -> (r: StreamBuilder<PublisherWantsOpen<E>>)
        ensures
            r.state.common.topic == self.state.common.topic,
            r.state.common.retention_policy_ms == policy_ms,
            r.state.encoder == self.state.encoder,
            r.state.batch_config == self.state.batch_config,
    {
        StreamBuilder {
            state: PublisherWantsOpen {
                common: StreamCommon {
                    topic: self.state.common.topic,
                    retention_policy_ms: policy_ms,
                },
                encoder: self.state.encoder,
                batch_config: self.state.batch_config,
            },
        }
    }
}

impl StreamBuilder<SubscriberWantsDecoder> {
    /// Starts configuring a subscriber for a topic.
    pub fn subscriber(topic: Vec<u8>) -> (r: StreamBuilder<SubscriberWantsDecoder>)
        ensures
            r.state.common.topic == topic,
            r.state.common.retention_policy_ms == DEFAULT_RETENTION_MS,
    {
        StreamBuilder {
            state: SubscriberWantsDecoder {
                common: StreamCommon { topic, retention_policy_ms: DEFAULT_RETENTION_MS },
            },
        }
    }

    /// Chooses the decoder received messages pass through.
    pub fn with_decoder<D>(self, decoder: D) -> (r: StreamBuilder<SubscriberWantsOpen<D>>)
        ensures
            r.state.common == self.state.common,
            r.state.decoder == decoder,
            r.state.offset == Offset::FromEnd(0u64),
    {
        StreamBuilder {
            state: SubscriberWantsOpen {
                common: self.state.common,
                decoder,
                offset: Offset::FromEnd(0),
            },
        }
    }
}

impl<D> StreamBuilder<SubscriberWantsOpen<D>> {
    /// Chooses where in the topic the subscriber starts reading.
    pub fn seek(self, offset: Offset) -> (r: StreamBuilder<SubscriberWantsOpen<D>>)
        ensures
            r.state.common == self.state.common,
            r.state.decoder == self.state.decoder,
            r.state.offset == offset,
    {
        StreamBuilder {
            state: SubscriberWantsOpen {
                common: self.state.common,
                decoder: self.state.decoder,
                offset,
            },
        }
    }
}

impl StreamBuilder<ReplierWantsRequestDecoder> {
    /// Starts configuring a replier for a topic.
    pub fn replier(topic: Vec<u8>) -> (r: StreamBuilder<ReplierWantsRequestDecoder>)
        ensures
            r.state.common.topic == topic,
            r.state.common.retention_policy_ms == DEFAULT_RETENTION_MS,
    {
        StreamBuilder {
            state: ReplierWantsRequestDecoder {
                common: StreamCommon { topic, retention_policy_ms: DEFAULT_RETENTION_MS },
            },
        }
    }

    /// Chooses the decoder incoming requests pass through.
    pub fn with_request_decoder<D>(self, decoder: D) -> (r: StreamBuilder<
        ReplierWantsReplyEncoder<D>,
    >)
        ensures
            r.state.common == self.state.common,
            r.state.decoder == decoder,
    {
        StreamBuilder {
            state: ReplierWantsReplyEncoder { common: self.state.common, decoder },
        }
    }
}

impl<D> StreamBuilder<ReplierWantsReplyEncoder<D>> {
    /// Chooses the encoder outgoing replies pass through.
    pub fn with_reply_encoder<E>(self, encoder: E) -> (r: StreamBuilder<ReplierWantsHandler<D, E>>)
        ensures
            r.state.common == self.state.common,
            r.state.decoder == self.state.decoder,
            r.state.encoder == encoder,
    {
        StreamBuilder {
            state: ReplierWantsHandler {
                common: self.state.common,
                decoder: self.state.decoder,
                encoder,
            },
        }
    }
}

} // verus!
