//! Settings.
use vstd::prelude::*;

verus! {

/// All settings of the engine.
#[derive(Debug)]
pub struct AppConfig<N> {
    pub general: GeneralConfig,
    pub alpaca: AlpacaConfig,
    pub crypto: CryptoConfig,
    pub finnhub: FinnhubConfig,
    pub nats: NatsConfig,
    pub redis: RedisConfig,
    pub questdb: QuestDbConfig,
    pub signals: SignalsConfig<N>,
    pub risk: RiskConfig<N>,
    pub strategies: StrategiesConfig<N>,
}

#[derive(Debug)]
pub struct GeneralConfig {
    pub log_level: String,
    pub paper_trading: bool,
    /// Seconds to wait after startup before allowing any trades. During warmup,
    /// data is taken in and signals are computed but not acted upon, which keeps
    /// signals from insufficient data away from the strategies.
    pub warmup_secs: u64,
}

#[derive(Debug)]
pub struct AlpacaConfig {
    pub api_key: String,
    pub api_secret: String,
    pub base_url: String,
    pub data_ws_url: String,
    pub trading_ws_url: String,
    pub symbols: Vec<String>,
}

#[derive(Debug)]
pub struct CryptoConfig {
    pub enabled: bool,
    pub ws_url: String,
    pub symbols: Vec<String>,
}

#[derive(Debug)]
pub struct NatsConfig {
    pub url: String,
}

#[derive(Debug)]
pub struct RedisConfig {
    pub url: String,
}

#[derive(Debug)]
pub struct QuestDbConfig {
    pub enabled: bool,
    pub ilp_address: String,
}

#[derive(Debug)]
pub struct FinnhubConfig {
    pub enabled: bool,
    pub api_key: String,
    /// Poll interval in seconds for the REST news endpoint.
    pub poll_interval_secs: u64,
    pub symbols: Vec<String>,
}

#[derive(Debug)]
pub struct SignalsConfig<N> {
    pub cross_asset: CrossAssetSignalConfig<N>,
    pub technical: TechnicalSignalConfig<N>,
}

#[derive(Debug)]
pub struct CrossAssetSignalConfig<N> {
    pub enabled: bool,
    pub vol_window_secs: u64,
    pub min_ticks: usize,
    pub z_score_threshold: N,
    pub correlation_window_secs: u64,
    /// Minimum seconds between signal emissions to prevent spam.
    pub signal_cooldown_secs: u64,
}

#[derive(Debug)]
pub struct TechnicalSignalConfig<N> {
    pub enabled: bool,
    pub rsi_period: usize,
    pub rsi_overbought: N,
    pub rsi_oversold: N,
    pub vwap_deviation_threshold: N,
    pub volume_spike_multiplier: N,
}

#[derive(Debug)]
pub struct RiskConfig<N> {
    pub max_position_pct: N,
    pub max_total_exposure_pct: N,
    pub max_drawdown_pct: N,
    pub max_open_orders: usize,
    pub min_trade_interval_secs: u64,
    /// Maximum notional value ($) of any single order.
    pub max_order_notional: N,
    /// Daily loss limit as fraction of equity. Separate from drawdown circuit breaker.
    pub daily_loss_limit_pct: N,
}

#[derive(Debug)]
pub struct StrategiesConfig<N> {
    pub crypto_vol_leads_equity: CryptoVolLeadsEquityConfig<N>,
    pub mean_reversion: MeanReversionConfig<N>,
}

#[derive(Debug)]
pub struct CryptoVolLeadsEquityConfig<N> {
    pub enabled: bool,
    pub crypto_symbol: String,
    pub equity_symbols: Vec<String>,
    pub position_size_pct: N,
    pub vol_spike_threshold: N,
    pub hold_duration_secs: u64,
}

#[derive(Debug)]
pub struct MeanReversionConfig<N> {
    pub enabled: bool,
    pub symbols: Vec<String>,
    /// RSI below this triggers buy.
    pub rsi_entry_threshold: N,
    /// RSI above this triggers exit.
    pub rsi_exit_threshold: N,
    pub position_size_pct: N,
    pub max_hold_secs: u64,
}

/// The environment variables that take precedence over the settings file, each where it
/// is set: one for every parameter.
#[derive(Debug)]
pub struct Environment<N> {
    pub general_log_level: Option<String>,
    pub general_paper_trading: Option<bool>,
    pub general_warmup_secs: Option<u64>,
    pub alpaca_api_key: Option<String>,
    pub alpaca_api_secret: Option<String>,
    pub alpaca_base_url: Option<String>,
    pub alpaca_data_ws_url: Option<String>,
    pub alpaca_trading_ws_url: Option<String>,
    pub alpaca_symbols: Option<Vec<String>>,
    pub crypto_enabled: Option<bool>,
    pub crypto_ws_url: Option<String>,
    pub crypto_symbols: Option<Vec<String>>,
    pub finnhub_enabled: Option<bool>,
    pub finnhub_api_key: Option<String>,
    pub finnhub_poll_interval_secs: Option<u64>,
    pub finnhub_symbols: Option<Vec<String>>,
    pub nats_url: Option<String>,
    pub redis_url: Option<String>,
    pub questdb_enabled: Option<bool>,
    pub questdb_ilp_address: Option<String>,
    pub signals_cross_asset_enabled: Option<bool>,
    pub signals_cross_asset_vol_window_secs: Option<u64>,
    pub signals_cross_asset_min_ticks: Option<usize>,
    pub signals_cross_asset_z_score_threshold: Option<N>,
    pub signals_cross_asset_correlation_window_secs: Option<u64>,
    pub signals_cross_asset_signal_cooldown_secs: Option<u64>,
    pub signals_technical_enabled: Option<bool>,
    pub signals_technical_rsi_period: Option<usize>,
    pub signals_technical_rsi_overbought: Option<N>,
    pub signals_technical_rsi_oversold: Option<N>,
    pub signals_technical_vwap_deviation_threshold: Option<N>,
    pub signals_technical_volume_spike_multiplier: Option<N>,
    pub risk_max_position_pct: Option<N>,
    pub risk_max_total_exposure_pct: Option<N>,
    pub risk_max_drawdown_pct: Option<N>,
    pub risk_max_open_orders: Option<usize>,
    pub risk_min_trade_interval_secs: Option<u64>,
    pub risk_max_order_notional: Option<N>,
    pub risk_daily_loss_limit_pct: Option<N>,
    pub strategies_crypto_vol_leads_equity_enabled: Option<bool>,
    pub strategies_crypto_vol_leads_equity_crypto_symbol: Option<String>,
    pub strategies_crypto_vol_leads_equity_equity_symbols: Option<Vec<String>>,
    pub strategies_crypto_vol_leads_equity_position_size_pct: Option<N>,
    pub strategies_crypto_vol_leads_equity_vol_spike_threshold: Option<N>,
    pub strategies_crypto_vol_leads_equity_hold_duration_secs: Option<u64>,
    pub strategies_mean_reversion_enabled: Option<bool>,
    pub strategies_mean_reversion_symbols: Option<Vec<String>>,
    pub strategies_mean_reversion_rsi_entry_threshold: Option<N>,
    pub strategies_mean_reversion_rsi_exit_threshold: Option<N>,
    pub strategies_mean_reversion_position_size_pct: Option<N>,
    pub strategies_mean_reversion_max_hold_secs: Option<u64>,
}

/// The value of a variable where it is set, else the value from the file.
pub open spec fn override_with<T>(variable: Option<T>, setting: T) -> T {
    match variable {
        Some(value) => value,
        None => setting,
    }
}

fn prefer<T>(variable: Option<T>, setting: T) -> (r: T)
    ensures
        r == override_with(variable, setting),
{
    match variable {
        Some(value) => value,
        None => setting,
    }
}

impl<N> Environment<N> {
    /// An environment in which nothing is set.
    pub fn empty() -> (r: Environment<N>)
        ensures
            r.general_log_level is None,
            r.general_paper_trading is None,
            r.general_warmup_secs is None,
            r.alpaca_api_key is None,
            r.alpaca_api_secret is None,
            r.alpaca_base_url is None,
            r.alpaca_data_ws_url is None,
            r.alpaca_trading_ws_url is None,
            r.alpaca_symbols is None,
            r.crypto_enabled is None,
            r.crypto_ws_url is None,
            r.crypto_symbols is None,
            r.finnhub_enabled is None,
            r.finnhub_api_key is None,
            r.finnhub_poll_interval_secs is None,
            r.finnhub_symbols is None,
            r.nats_url is None,
            r.redis_url is None,
            r.questdb_enabled is None,
            r.questdb_ilp_address is None,
            r.signals_cross_asset_enabled is None,
            r.signals_cross_asset_vol_window_secs is None,
            r.signals_cross_asset_min_ticks is None,
            r.signals_cross_asset_z_score_threshold is None,
            r.signals_cross_asset_correlation_window_secs is None,
            r.signals_cross_asset_signal_cooldown_secs is None,
            r.signals_technical_enabled is None,
            r.signals_technical_rsi_period is None,
            r.signals_technical_rsi_overbought is None,
            r.signals_technical_rsi_oversold is None,
            r.signals_technical_vwap_deviation_threshold is None,
            r.signals_technical_volume_spike_multiplier is None,
            r.risk_max_position_pct is None,
            r.risk_max_total_exposure_pct is None,
            r.risk_max_drawdown_pct is None,
            r.risk_max_open_orders is None,
            r.risk_min_trade_interval_secs is None,
            r.risk_max_order_notional is None,
            r.risk_daily_loss_limit_pct is None,
            r.strategies_crypto_vol_leads_equity_enabled is None,
            r.strategies_crypto_vol_leads_equity_crypto_symbol is None,
            r.strategies_crypto_vol_leads_equity_equity_symbols is None,
            r.strategies_crypto_vol_leads_equity_position_size_pct is None,
            r.strategies_crypto_vol_leads_equity_vol_spike_threshold is None,
            r.strategies_crypto_vol_leads_equity_hold_duration_secs is None,
            r.strategies_mean_reversion_enabled is None,
            r.strategies_mean_reversion_symbols is None,
            r.strategies_mean_reversion_rsi_entry_threshold is None,
            r.strategies_mean_reversion_rsi_exit_threshold is None,
            r.strategies_mean_reversion_position_size_pct is None,
            r.strategies_mean_reversion_max_hold_secs is None,
    {
        Environment {
            general_log_level: None,
            general_paper_trading: None,
            general_warmup_secs: None,
            alpaca_api_key: None,
            alpaca_api_secret: None,
            alpaca_base_url: None,
            alpaca_data_ws_url: None,
            alpaca_trading_ws_url: None,
            alpaca_symbols: None,
            crypto_enabled: None,
            crypto_ws_url: None,
            crypto_symbols: None,
            finnhub_enabled: None,
            finnhub_api_key: None,
            finnhub_poll_interval_secs: None,
            finnhub_symbols: None,
            nats_url: None,
            redis_url: None,
            questdb_enabled: None,
            questdb_ilp_address: None,
            signals_cross_asset_enabled: None,
            signals_cross_asset_vol_window_secs: None,
            signals_cross_asset_min_ticks: None,
            signals_cross_asset_z_score_threshold: None,
            signals_cross_asset_correlation_window_secs: None,
            signals_cross_asset_signal_cooldown_secs: None,
            signals_technical_enabled: None,
            signals_technical_rsi_period: None,
            signals_technical_rsi_overbought: None,
            signals_technical_rsi_oversold: None,
            signals_technical_vwap_deviation_threshold: None,
            signals_technical_volume_spike_multiplier: None,
            risk_max_position_pct: None,
            risk_max_total_exposure_pct: None,
            risk_max_drawdown_pct: None,
            risk_max_open_orders: None,
            risk_min_trade_interval_secs: None,
            risk_max_order_notional: None,
            risk_daily_loss_limit_pct: None,
            strategies_crypto_vol_leads_equity_enabled: None,
            strategies_crypto_vol_leads_equity_crypto_symbol: None,
            strategies_crypto_vol_leads_equity_equity_symbols: None,
            strategies_crypto_vol_leads_equity_position_size_pct: None,
            strategies_crypto_vol_leads_equity_vol_spike_threshold: None,
            strategies_crypto_vol_leads_equity_hold_duration_secs: None,
            strategies_mean_reversion_enabled: None,
            strategies_mean_reversion_symbols: None,
            strategies_mean_reversion_rsi_entry_threshold: None,
            strategies_mean_reversion_rsi_exit_threshold: None,
            strategies_mean_reversion_position_size_pct: None,
            strategies_mean_reversion_max_hold_secs: None,
        }
    }
}

impl<N> AppConfig<N> {
    /// The settings of the file with the environment's variables put in their places:
    /// each parameter has the value of its variable where that is set, and else the
    /// file's.
    pub fn with_environment(self, env: Environment<N>) -> (r: AppConfig<N>)
        ensures
            r == (AppConfig {
                general: GeneralConfig {
                    log_level: override_with(env.general_log_level, self.general.log_level),
                    paper_trading: override_with(
                        env.general_paper_trading,
                        self.general.paper_trading,
                    ),
                    warmup_secs: override_with(env.general_warmup_secs, self.general.warmup_secs),
                },
                alpaca: AlpacaConfig {
                    api_key: override_with(env.alpaca_api_key, self.alpaca.api_key),
                    api_secret: override_with(env.alpaca_api_secret, self.alpaca.api_secret),
                    base_url: override_with(env.alpaca_base_url, self.alpaca.base_url),
                    data_ws_url: override_with(env.alpaca_data_ws_url, self.alpaca.data_ws_url),
                    trading_ws_url: override_with(
                        env.alpaca_trading_ws_url,
                        self.alpaca.trading_ws_url,
                    ),
                    symbols: override_with(env.alpaca_symbols, self.alpaca.symbols),
                },
                crypto: CryptoConfig {
                    enabled: override_with(env.crypto_enabled, self.crypto.enabled),
                    ws_url: override_with(env.crypto_ws_url, self.crypto.ws_url),
                    symbols: override_with(env.crypto_symbols, self.crypto.symbols),
                },
                finnhub: FinnhubConfig {
                    enabled: override_with(env.finnhub_enabled, self.finnhub.enabled),
                    api_key: override_with(env.finnhub_api_key, self.finnhub.api_key),
                    poll_interval_secs: override_with(
                        env.finnhub_poll_interval_secs,
                        self.finnhub.poll_interval_secs,
                    ),
                    symbols: override_with(env.finnhub_symbols, self.finnhub.symbols),
                },
                nats: NatsConfig {
                    url: override_with(env.nats_url, self.nats.url),
                },
                redis: RedisConfig {
                    url: override_with(env.redis_url, self.redis.url),
                },
                questdb: QuestDbConfig {
                    enabled: override_with(env.questdb_enabled, self.questdb.enabled),
                    ilp_address: override_with(env.questdb_ilp_address, self.questdb.ilp_address),
                },
                signals: SignalsConfig {
                    cross_asset: CrossAssetSignalConfig {
                        enabled: override_with(
                            env.signals_cross_asset_enabled,
                            self.signals.cross_asset.enabled,
                        ),
                        vol_window_secs: override_with(
                            env.signals_cross_asset_vol_window_secs,
                            self.signals.cross_asset.vol_window_secs,
                        ),
                        min_ticks: override_with(
                            env.signals_cross_asset_min_ticks,
                            self.signals.cross_asset.min_ticks,
                        ),
                        z_score_threshold: override_with(
                            env.signals_cross_asset_z_score_threshold,
                            self.signals.cross_asset.z_score_threshold,
                        ),
                        correlation_window_secs: override_with(
                            env.signals_cross_asset_correlation_window_secs,
                            self.signals.cross_asset.correlation_window_secs,
                        ),
                        signal_cooldown_secs: override_with(
                            env.signals_cross_asset_signal_cooldown_secs,
                            self.signals.cross_asset.signal_cooldown_secs,
                        ),
                    },
                    technical: TechnicalSignalConfig {
                        enabled: override_with(
                            env.signals_technical_enabled,
                            self.signals.technical.enabled,
                        ),
                        rsi_period: override_with(
                            env.signals_technical_rsi_period,
                            self.signals.technical.rsi_period,
                        ),
                        rsi_overbought: override_with(
                            env.signals_technical_rsi_overbought,
                            self.signals.technical.rsi_overbought,
                        ),
                        rsi_oversold: override_with(
                            env.signals_technical_rsi_oversold,
                            self.signals.technical.rsi_oversold,
                        ),
                        vwap_deviation_threshold: override_with(
                            env.signals_technical_vwap_deviation_threshold,
                            self.signals.technical.vwap_deviation_threshold,
                        ),
                        volume_spike_multiplier: override_with(
                            env.signals_technical_volume_spike_multiplier,
                            self.signals.technical.volume_spike_multiplier,
                        ),
                    },
                },
                risk: RiskConfig {
                    max_position_pct: override_with(
                        env.risk_max_position_pct,
                        self.risk.max_position_pct,
                    ),
                    max_total_exposure_pct: override_with(
                        env.risk_max_total_exposure_pct,
                        self.risk.max_total_exposure_pct,
                    ),
                    max_drawdown_pct: override_with(
                        env.risk_max_drawdown_pct,
                        self.risk.max_drawdown_pct,
                    ),
                    max_open_orders: override_with(
                        env.risk_max_open_orders,
                        self.risk.max_open_orders,
                    ),
                    min_trade_interval_secs: override_with(
                        env.risk_min_trade_interval_secs,
                        self.risk.min_trade_interval_secs,
                    ),
                    max_order_notional: override_with(
                        env.risk_max_order_notional,
                        self.risk.max_order_notional,
                    ),
                    daily_loss_limit_pct: override_with(
                        env.risk_daily_loss_limit_pct,
                        self.risk.daily_loss_limit_pct,
                    ),
                },
                strategies: StrategiesConfig {
                    crypto_vol_leads_equity: CryptoVolLeadsEquityConfig {
                        enabled: override_with(
                            env.strategies_crypto_vol_leads_equity_enabled,
                            self.strategies.crypto_vol_leads_equity.enabled,
                        ),
                        crypto_symbol: override_with(
                            env.strategies_crypto_vol_leads_equity_crypto_symbol,
                            self.strategies.crypto_vol_leads_equity.crypto_symbol,
                        ),
                        equity_symbols: override_with(
                            env.strategies_crypto_vol_leads_equity_equity_symbols,
                            self.strategies.crypto_vol_leads_equity.equity_symbols,
                        ),
                        position_size_pct: override_with(
                            env.strategies_crypto_vol_leads_equity_position_size_pct,
                            self.strategies.crypto_vol_leads_equity.position_size_pct,
                        ),
                        vol_spike_threshold: override_with(
                            env.strategies_crypto_vol_leads_equity_vol_spike_threshold,
                            self.strategies.crypto_vol_leads_equity.vol_spike_threshold,
                        ),
                        hold_duration_secs: override_with(
                            env.strategies_crypto_vol_leads_equity_hold_duration_secs,
                            self.strategies.crypto_vol_leads_equity.hold_duration_secs,
                        ),
                    },
                    mean_reversion: MeanReversionConfig {
                        enabled: override_with(
                            env.strategies_mean_reversion_enabled,
                            self.strategies.mean_reversion.enabled,
                        ),
                        symbols: override_with(
                            env.strategies_mean_reversion_symbols,
                            self.strategies.mean_reversion.symbols,
                        ),
                        rsi_entry_threshold: override_with(
                            env.strategies_mean_reversion_rsi_entry_threshold,
                            self.strategies.mean_reversion.rsi_entry_threshold,
                        ),
                        rsi_exit_threshold: override_with(
                            env.strategies_mean_reversion_rsi_exit_threshold,
                            self.strategies.mean_reversion.rsi_exit_threshold,
                        ),
                        position_size_pct: override_with(
                            env.strategies_mean_reversion_position_size_pct,
                            self.strategies.mean_reversion.position_size_pct,
                        ),
                        max_hold_secs: override_with(
                            env.strategies_mean_reversion_max_hold_secs,
                            self.strategies.mean_reversion.max_hold_secs,
                        ),
                    },
                },
            }),
    {
        AppConfig {
            general: GeneralConfig {
                log_level: prefer(env.general_log_level, self.general.log_level),
                paper_trading: prefer(env.general_paper_trading, self.general.paper_trading),
                warmup_secs: prefer(env.general_warmup_secs, self.general.warmup_secs),
            },
            alpaca: AlpacaConfig {
                api_key: prefer(env.alpaca_api_key, self.alpaca.api_key),
                api_secret: prefer(env.alpaca_api_secret, self.alpaca.api_secret),
                base_url: prefer(env.alpaca_base_url, self.alpaca.base_url),
                data_ws_url: prefer(env.alpaca_data_ws_url, self.alpaca.data_ws_url),
                trading_ws_url: prefer(env.alpaca_trading_ws_url, self.alpaca.trading_ws_url),
                symbols: prefer(env.alpaca_symbols, self.alpaca.symbols),
            },
            crypto: CryptoConfig {
                enabled: prefer(env.crypto_enabled, self.crypto.enabled),
                ws_url: prefer(env.crypto_ws_url, self.crypto.ws_url),
                symbols: prefer(env.crypto_symbols, self.crypto.symbols),
            },
            finnhub: FinnhubConfig {
                enabled: prefer(env.finnhub_enabled, self.finnhub.enabled),
                api_key: prefer(env.finnhub_api_key, self.finnhub.api_key),
                poll_interval_secs: prefer(
                    env.finnhub_poll_interval_secs,
                    self.finnhub.poll_interval_secs,
                ),
                symbols: prefer(env.finnhub_symbols, self.finnhub.symbols),
            },
            nats: NatsConfig {
                url: prefer(env.nats_url, self.nats.url),
            },
            redis: RedisConfig {
                url: prefer(env.redis_url, self.redis.url),
            },
            questdb: QuestDbConfig {
                enabled: prefer(env.questdb_enabled, self.questdb.enabled),
                ilp_address: prefer(env.questdb_ilp_address, self.questdb.ilp_address),
            },
            signals: SignalsConfig {
                cross_asset: CrossAssetSignalConfig {
                    enabled: prefer(
                        env.signals_cross_asset_enabled,
                        self.signals.cross_asset.enabled,
                    ),
                    vol_window_secs: prefer(
                        env.signals_cross_asset_vol_window_secs,
                        self.signals.cross_asset.vol_window_secs,
                    ),
                    min_ticks: prefer(
                        env.signals_cross_asset_min_ticks,
                        self.signals.cross_asset.min_ticks,
                    ),
                    z_score_threshold: prefer(
                        env.signals_cross_asset_z_score_threshold,
                        self.signals.cross_asset.z_score_threshold,
                    ),
                    correlation_window_secs: prefer(
                        env.signals_cross_asset_correlation_window_secs,
                        self.signals.cross_asset.correlation_window_secs,
                    ),
                    signal_cooldown_secs: prefer(
                        env.signals_cross_asset_signal_cooldown_secs,
                        self.signals.cross_asset.signal_cooldown_secs,
                    ),
                },
                technical: TechnicalSignalConfig {
                    enabled: prefer(env.signals_technical_enabled, self.signals.technical.enabled),
                    rsi_period: prefer(
                        env.signals_technical_rsi_period,
                        self.signals.technical.rsi_period,
                    ),
                    rsi_overbought: prefer(
                        env.signals_technical_rsi_overbought,
                        self.signals.technical.rsi_overbought,
                    ),
                    rsi_oversold: prefer(
                        env.signals_technical_rsi_oversold,
                        self.signals.technical.rsi_oversold,
                    ),
                    vwap_deviation_threshold: prefer(
                        env.signals_technical_vwap_deviation_threshold,
                        self.signals.technical.vwap_deviation_threshold,
                    ),
                    volume_spike_multiplier: prefer(
                        env.signals_technical_volume_spike_multiplier,
                        self.signals.technical.volume_spike_multiplier,
                    ),
                },
            },
            risk: RiskConfig {
                max_position_pct: prefer(env.risk_max_position_pct, self.risk.max_position_pct),
                max_total_exposure_pct: prefer(
                    env.risk_max_total_exposure_pct,
                    self.risk.max_total_exposure_pct,
                ),
                max_drawdown_pct: prefer(env.risk_max_drawdown_pct, self.risk.max_drawdown_pct),
                max_open_orders: prefer(env.risk_max_open_orders, self.risk.max_open_orders),
                min_trade_interval_secs: prefer(
                    env.risk_min_trade_interval_secs,
                    self.risk.min_trade_interval_secs,
                ),
                max_order_notional: prefer(
                    env.risk_max_order_notional,
                    self.risk.max_order_notional,
                ),
                daily_loss_limit_pct: prefer(
                    env.risk_daily_loss_limit_pct,
                    self.risk.daily_loss_limit_pct,
                ),
            },
            strategies: StrategiesConfig {
                crypto_vol_leads_equity: CryptoVolLeadsEquityConfig {
                    enabled: prefer(
                        env.strategies_crypto_vol_leads_equity_enabled,
                        self.strategies.crypto_vol_leads_equity.enabled,
                    ),
                    crypto_symbol: prefer(
                        env.strategies_crypto_vol_leads_equity_crypto_symbol,
                        self.strategies.crypto_vol_leads_equity.crypto_symbol,
                    ),
                    equity_symbols: prefer(
                        env.strategies_crypto_vol_leads_equity_equity_symbols,
                        self.strategies.crypto_vol_leads_equity.equity_symbols,
                    ),
                    position_size_pct: prefer(
                        env.strategies_crypto_vol_leads_equity_position_size_pct,
                        self.strategies.crypto_vol_leads_equity.position_size_pct,
                    ),
                    vol_spike_threshold: prefer(
                        env.strategies_crypto_vol_leads_equity_vol_spike_threshold,
                        self.strategies.crypto_vol_leads_equity.vol_spike_threshold,
                    ),
                    hold_duration_secs: prefer(
                        env.strategies_crypto_vol_leads_equity_hold_duration_secs,
                        self.strategies.crypto_vol_leads_equity.hold_duration_secs,
                    ),
                },
                mean_reversion: MeanReversionConfig {
                    enabled: prefer(
                        env.strategies_mean_reversion_enabled,
                        self.strategies.mean_reversion.enabled,
                    ),
                    symbols: prefer(
                        env.strategies_mean_reversion_symbols,
                        self.strategies.mean_reversion.symbols,
                    ),
                    rsi_entry_threshold: prefer(
                        env.strategies_mean_reversion_rsi_entry_threshold,
                        self.strategies.mean_reversion.rsi_entry_threshold,
                    ),
                    rsi_exit_threshold: prefer(
                        env.strategies_mean_reversion_rsi_exit_threshold,
                        self.strategies.mean_reversion.rsi_exit_threshold,
                    ),
                    position_size_pct: prefer(
                        env.strategies_mean_reversion_position_size_pct,
                        self.strategies.mean_reversion.position_size_pct,
                    ),
                    max_hold_secs: prefer(
                        env.strategies_mean_reversion_max_hold_secs,
                        self.strategies.mean_reversion.max_hold_secs,
                    ),
                },
            },
        }
    }
}

impl AlpacaConfig {
    /// Whether both credentials are there; the engine does not start otherwise.
    pub fn has_credentials(&self) -> (r: bool)
        ensures
            r == (self.api_key@.len() > 0 && self.api_secret@.len() > 0),
    {
        !self.api_key.as_str().is_empty() && !self.api_secret.as_str().is_empty()
    }
}

/// A variable that is set counts whatever the file says, and one that is not set leaves what
/// the file says.
pub proof fn law_variables_come_before_the_file<T>(value: T, setting: T)
    ensures
        override_with(Some(value), setting) == value,
        override_with(None, setting) == setting,
{
}

} // verus!
