//! The files that the gateway writes on its first run.
use vstd::prelude::*;

verus! {

/// The configuration file of a first run.
pub const DEFAULT_CONFIG_TEMPLATE: &'static str = "[server]
bind = \"0.0.0.0:25565\"
max_connections = 4096
login_timeout_ms = 10000
max_frame_length = 2097152
# An empty list accepts every protocol that the gateway knows.
supported_protocols = []
motd = \"Transfer Gateway\"
max_players = 100
strict_error_handling = false

# Each requested host has a file of its own; unknown hosts use the default.
[vhosts]
default = \"alpha\"
\"alpha\" = \"./vhosts/alpha.toml\"
\"beta\" = \"./vhosts/beta.toml\"

[ip2region]
v4_db = \"./data/ip2region_v4.xdb\"
v6_db = \"./data/ip2region_v6.xdb\"
auto_download = true
auto_update = false
update_interval_secs = 86400
download_base_url = \"https://raw.githubusercontent.com/lionsoul2014/ip2region/master/data\"

[security]
enabled = true
block_vpn = true
block_tor = true
block_spam = true
auto_download = true
auto_update = false
update_interval_secs = 86400
tor_exit_list = \"./data/tor-exit-list.txt\"
tor_exit_list_url = \"https://check.torproject.org/torbulkexitlist\"
spam_list = \"./data/spam-ip-list.txt\"
spam_list_url = \"https://blackip.ustc.edu.cn/list.php?txt\"
vpn_ipv4_list = \"./data/vpn-ipv4.txt\"
vpn_ipv4_list_url = \"https://raw.githubusercontent.com/X4BNet/lists_vpn/main/output/vpn/ipv4.txt\"
vpn_ipv6_list = \"./data/vpn-ipv6.txt\"
vpn_ipv6_list_url = \"https://raw.githubusercontent.com/X4BNet/lists_vpn/main/output/vpn/ipv6.txt\"
allowlist = []
vpn_isp_contains = []

[language]
locale = \"zh-CN\"
directory = \"./lang\"

[logging]
# An empty path switches the log file off.
file = \"./logs/gateway.log\"
";

/// The file of the host `alpha`.
pub const ALPHA_VHOST_TEMPLATE: &'static str = "# The address that players are sent to.
host = \"alpha-backend.example.com\"
port = 25565
resolve_srv = false
";

/// The file of the host `beta`.
pub const BETA_VHOST_TEMPLATE: &'static str = "# The address that players are sent to.
host = \"beta-backend.example.com\"
port = 25565
resolve_srv = false
";

/// The files of the hosts of a first run, by name.
pub const DEFAULT_VHOST_TEMPLATES: [(&'static str, &'static str); 2] = [
    ("alpha", ALPHA_VHOST_TEMPLATE),
    ("beta", BETA_VHOST_TEMPLATE),
];

/// The messages in Chinese.
pub const BUILTIN_ZH_CN: &'static str = "[meta]
locale = \"zh-CN\"
name = \"简体中文\"
version = 1

[messages]
\"status.motd\" = \"{motd}\"
\"disconnect.unsupported_protocol\" = \"不支持的协议版本 {protocol}，支持的版本：{supported}\"
\"disconnect.invalid_username_length\" = \"玩家名称长度必须为 3 到 16 个字符\"
\"disconnect.invalid_username_characters\" = \"玩家名称只能包含字母、数字和下划线\"
\"disconnect.vpn_blocked\" = \"不允许通过 VPN 或代理连接\"
\"disconnect.tor_blocked\" = \"不允许通过 Tor 连接\"
\"disconnect.spam_blocked\" = \"你的 IP 地址已被列入黑名单\"
\"disconnect.no_route\" = \"当前没有可用的线路\"
\"log.first_run\" = \"已创建配置文件 {config} 和语言目录 {directory}，请编辑后重新启动\"
\"log.starting\" = \"网关正在启动，语言：{locale}\"
\"log.language_created\" = \"已创建语言文件 {path}\"
\"log.ip2region_downloaded\" = \"已下载 ip2region {version} 数据库：{path}\"
\"log.ip2region_download_failed\" = \"ip2region 数据库下载失败：{error}\"
\"log.ip2region_updated\" = \"已更新 ip2region {version} 数据库：{path}\"
\"log.ip2region_update_failed\" = \"ip2region 数据库更新失败：{error}\"
\"log.ip2region_failed\" = \"ip2region 查询失败\"
\"log.no_ip2region\" = \"没有可用的 ip2region 数据库，只能按默认线路转发\"
\"log.security_list_downloaded\" = \"已下载安全名单 {kind}：{path}\"
\"log.security_list_download_failed\" = \"安全名单下载失败：{error}\"
\"log.security_list_updated\" = \"已更新安全名单 {kind}：{path}\"
\"log.security_list_update_failed\" = \"安全名单更新失败：{error}\"
\"log.no_security_data\" = \"已开启安全拦截，但没有可用的名单\"
\"log.security_blocked\" = \"已拦截 {kind} 连接：{ip}\"
\"log.connection_limit\" = \"连接数已达上限\"
\"log.status_proxy_failed\" = \"获取目标服务器状态失败：{error}\"
\"log.transfer\" = \"玩家 {player} 经线路 {line} 转移到 {target}\"
\"log.config_reloaded\" = \"配置已重新加载\"
\"log.config_reload_failed\" = \"配置重新加载失败，继续使用原有配置：{error}\"
";

/// The messages in English, which stand in for those that another language lacks.
pub const BUILTIN_EN_US: &'static str = "[meta]
locale = \"en-US\"
name = \"English (US)\"
version = 1

[messages]
\"status.motd\" = \"{motd}\"
\"disconnect.unsupported_protocol\" = \"Unsupported protocol {protocol}; supported versions: {supported}\"
\"disconnect.invalid_username_length\" = \"Player names must have 3 to 16 characters\"
\"disconnect.invalid_username_characters\" = \"Player names may only contain letters, digits and underscores\"
\"disconnect.vpn_blocked\" = \"Connections through a VPN or proxy are not allowed\"
\"disconnect.tor_blocked\" = \"Connections through Tor are not allowed\"
\"disconnect.spam_blocked\" = \"Your IP address is on a blocklist\"
\"disconnect.no_route\" = \"No route is available at the moment\"
\"log.first_run\" = \"created {config} and the language directory {directory}; edit them and start again\"
\"log.starting\" = \"gateway is starting with locale {locale}\"
\"log.language_created\" = \"created language file {path}\"
\"log.ip2region_downloaded\" = \"downloaded ip2region {version} database to {path}\"
\"log.ip2region_download_failed\" = \"ip2region database download failed: {error}\"
\"log.ip2region_updated\" = \"updated ip2region {version} database {path}\"
\"log.ip2region_update_failed\" = \"ip2region database update failed: {error}\"
\"log.ip2region_failed\" = \"ip2region lookup failed\"
\"log.no_ip2region\" = \"no ip2region database is available; only the default line can be chosen\"
\"log.security_list_downloaded\" = \"downloaded security list {kind} to {path}\"
\"log.security_list_download_failed\" = \"security list download failed: {error}\"
\"log.security_list_updated\" = \"updated security list {kind} {path}\"
\"log.security_list_update_failed\" = \"security list update failed: {error}\"
\"log.no_security_data\" = \"blocking is enabled, but no list is available\"
\"log.security_blocked\" = \"blocked {kind} connection from {ip}\"
\"log.connection_limit\" = \"connection limit reached\"
\"log.status_proxy_failed\" = \"unable to fetch the status of the target server: {error}\"
\"log.transfer\" = \"transferred {player} through {line} to {target}\"
\"log.config_reloaded\" = \"configuration reloaded\"
\"log.config_reload_failed\" = \"configuration reload failed, the previous one stays in use: {error}\"
";

} // verus!
