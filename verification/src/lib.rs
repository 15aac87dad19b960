//! Engine core of a Quake 2 engine for the browser: binary readers, network
//! messages and channels, the console command buffer and console variables,
//! tagged memory pools, PAK archives and the search path, the integer lumps
//! of BSP maps with their MD4 checksum and area connectivity, entity-string
//! parsing, item rules, and the assembly of the single-file HTML page.

pub mod binary;
pub mod error;
pub mod net_msg;
pub mod text;
pub mod usercmd;
pub mod netchan;
pub mod zone;
pub mod cmd;
pub mod spawn;
pub mod constants;
pub mod collision;
pub mod filesystem;
pub mod items;
pub mod cvar;
pub mod bundler;
pub mod content;
pub mod player;
pub mod hud;
pub mod spawn_table;
pub mod delta;
pub mod player_delta;
pub mod packet_entities;
pub mod frame;
pub mod combat;
