use protobuf::Message;

use sawtooth_raft::block_queue::{Block, BlockQueue, BlockStatus};
use sawtooth_raft::cli::{log_level_for, LogLevel, RaftCliArgs};
use sawtooth_raft::config::{
    get_peers_from_settings, load_raft_config, peer_id_to_raft_id, try_get_peers_from_settings,
    decode_peer_list, tag_for, try_load_raft_config, ConfigError, PeersSettingError, RaftEngineConfig, Settings,
    DEFAULT_PERIOD_MS, MAX_SIZE_PER_MSG,
};
use sawtooth_raft::engine::{RaftEngine, Ticker, RAFT_TIMEOUT_MS};
use sawtooth_raft::node::{EntryError, NodeAction, SawtoothRaftNode};
use sawtooth_raft::path::PathConfig;
use sawtooth_raft::types::{decimal_string, ConfChange, ConfChangeType, Entry, EntryType};

fn block(id: u8, previous: u8) -> Block {
    Block {
        block_id: vec![id],
        previous_id: vec![previous],
        signer_id: vec![0; 8],
        block_num: id as u64,
        payload: vec![],
        summary: vec![],
    }
}

fn peer(last: u8) -> Vec<u8> {
    vec![0, 0, 0, 0, 0, 0, 0, 0, last]
}

fn settings(pairs: &[(&str, &str)]) -> Settings {
    pairs.iter().map(|(k, v)| (k.to_string(), v.to_string())).collect()
}

fn peers_json(peers: &[Vec<u8>]) -> String {
    let hexes: Vec<String> = peers.iter().map(|p| format!("\"{}\"", hex::encode(p))).collect();
    format!("[{}]", hexes.join(","))
}

fn normal_entry(index: u64, data: Vec<u8>) -> Entry {
    Entry { entry_type: EntryType::EntryNormal, term: 2, index, data, context: vec![], sync_log: false }
}

fn conf_change_entry(index: u64, term: u64, change_type: raft::eraftpb::ConfChangeType, node_id: u64, context: Vec<u8>) -> Entry {
    let mut cc = raft::eraftpb::ConfChange::new();
    cc.set_change_type(change_type);
    cc.set_node_id(node_id);
    cc.set_context(context);
    let data = cc.write_to_bytes().unwrap();
    Entry { entry_type: EntryType::EntryConfChange, term, index, data, context: vec![], sync_log: false }
}

fn describe(actions: &[NodeAction]) -> Vec<String> {
    actions
        .iter()
        .map(|a| match a {
            NodeAction::CheckBlocks(id) => format!("check {:?}", id),
            NodeAction::ProposeBlock(id) => format!("propose {:?}", id),
            NodeAction::SetApplied(e) => format!("applied {}", e),
            NodeAction::ProposeConfChange(c) => format!("propose change {:?} {} {:?}", c.change_type, c.node_id, c.context),
            NodeAction::ApplyConfChange(c) => format!("apply change {:?} {} {:?}", c.change_type, c.node_id, c.context),
            NodeAction::InitializeBlock => "initialize".to_string(),
            NodeAction::CancelBlock => "cancel".to_string(),
            NodeAction::CommitBlock(id) => format!("commit {:?}", id),
        })
        .collect()
}

// The block queue

#[test]
fn block_queue_commits_in_order() {
    let mut queue = BlockQueue::new();
    queue.add_block_commit(vec![1], 10);
    queue.add_block_commit(vec![2], 11);
    assert_eq!(10, queue.block_committed());
    assert_eq!(11, queue.block_committed());
}

#[test]
fn block_queue_next_committable_needs_valid_block_on_head() {
    let mut queue = BlockQueue::new();
    let head = block(0, 0);
    assert_eq!(None, queue.get_next_committable(&head));
    queue.add_block_commit(vec![1], 5);
    assert_eq!(None, queue.get_next_committable(&head));
    queue.block_new(block(1, 0));
    assert_eq!(None, queue.get_next_committable(&head));
    queue.block_valid(&vec![1]);
    assert_eq!(Some(vec![1]), queue.get_next_committable(&head));
    // Not on top of another head
    assert_eq!(None, queue.get_next_committable(&block(9, 9)));
}

#[test]
fn block_queue_valid_before_new() {
    let mut queue = BlockQueue::new();
    queue.block_valid(&vec![3]);
    queue.add_block_commit(vec![3], 1);
    assert_eq!(None, queue.get_next_committable(&block(0, 0)));
    queue.block_new(block(3, 0));
    assert_eq!(Some(vec![3]), queue.get_next_committable(&block(0, 0)));
    assert_eq!(1, queue.block_committed());
    assert_eq!(None, queue.get_next_committable(&block(0, 0)));
}

#[test]
fn block_status_constructors() {
    let s = BlockStatus::with_block(block(4, 3));
    assert!(!s.block_valid);
    assert_eq!(vec![4], s.block.unwrap().block_id);
    let v = BlockStatus::with_valid();
    assert!(v.block_valid);
    assert!(v.block.is_none());
}

// The configuration

#[test]
fn raft_id_is_big_endian_of_last_eight_bytes() {
    assert_eq!(0x0102030405060708, peer_id_to_raft_id(&vec![1, 2, 3, 4, 5, 6, 7, 8]));
    assert_eq!(0x0102030405060708, peer_id_to_raft_id(&vec![0xff, 0xee, 1, 2, 3, 4, 5, 6, 7, 8]));
    assert_eq!(5, peer_id_to_raft_id(&peer(5)));
}

#[test]
fn peers_are_read_from_settings() {
    let s = settings(&[("sawtooth.consensus.raft.peers", "[\"0102030405060708\", \"AABBCCDDEEFF0011\"]")]);
    let peers = get_peers_from_settings(&s);
    assert_eq!(vec![vec![1, 2, 3, 4, 5, 6, 7, 8], vec![0xaa, 0xbb, 0xcc, 0xdd, 0xee, 0xff, 0x00, 0x11]], peers);
}

#[test]
fn peers_setting_errors() {
    assert_eq!(Err(PeersSettingError::Missing), try_get_peers_from_settings(&settings(&[])));
    assert_eq!(
        Err(PeersSettingError::InvalidJson),
        try_get_peers_from_settings(&settings(&[("sawtooth.consensus.raft.peers", "not json")]))
    );
    assert_eq!(
        Err(PeersSettingError::InvalidHex),
        try_get_peers_from_settings(&settings(&[("sawtooth.consensus.raft.peers", "[\"0g\"]")]))
    );
    assert_eq!(
        Err(PeersSettingError::InvalidHex),
        try_get_peers_from_settings(&settings(&[("sawtooth.consensus.raft.peers", "[\"abc\"]")]))
    );
}

#[test]
fn raft_config_from_settings() {
    let peers = vec![peer(1), peer(2)];
    let json = peers_json(&peers);
    let s = settings(&[
        ("sawtooth.consensus.raft.peers", json.as_str()),
        ("sawtooth.consensus.raft.heartbeat_tick", "+4"),
        ("sawtooth.consensus.raft.election_tick", "forty"),
        ("sawtooth.consensus.raft.period", "250"),
    ]);
    let config = load_raft_config(&peer(1), &s);
    assert_eq!(1, config.raft.id);
    assert_eq!(Some(4), config.raft.heartbeat_tick);
    assert_eq!(None, config.raft.election_tick);
    assert_eq!(250, config.period_ms);
    assert_eq!(peers, config.peers);
    assert_eq!(vec![1, 2], config.raft.peers);
    assert_eq!(MAX_SIZE_PER_MSG, config.raft.max_size_per_msg);
    assert_eq!("[1]", config.raft.tag);
}

#[test]
fn raft_tag_is_the_id_in_brackets() {
    assert_eq!("[0]", tag_for(0));
    assert_eq!("[1234]", tag_for(1234));
    assert_eq!("[18446744073709551615]", tag_for(u64::MAX));
    assert_eq!("907", decimal_string(907));
    assert_eq!("", RaftEngineConfig::new().raft.tag);
    let mut id = vec![0u8; 8];
    id[6] = 1;
    id[7] = 2;
    let s = settings(&[("sawtooth.consensus.raft.peers", "[]")]);
    assert_eq!("[258]", try_load_raft_config(&id, &s).unwrap().raft.tag);
}

#[test]
fn raft_config_defaults() {
    let config = RaftEngineConfig::new();
    assert_eq!(DEFAULT_PERIOD_MS, config.period_ms);
    assert_eq!(3000, config.period_ms);
    assert_eq!(1024 * 1024 * 1024, config.raft.max_size_per_msg);
    let s = settings(&[
        ("sawtooth.consensus.raft.peers", "[]"),
        ("sawtooth.consensus.raft.period", "-5"),
        ("sawtooth.consensus.raft.election_tick", "18446744073709551616"),
    ]);
    let config = load_raft_config(&peer(3), &s);
    assert_eq!(3000, config.period_ms);
    assert_eq!(None, config.raft.election_tick);
    assert_eq!(None, config.raft.heartbeat_tick);
    assert!(config.peers.is_empty());
}

#[test]
fn raft_config_errors() {
    let s = settings(&[("sawtooth.consensus.raft.peers", "[\"01\"]")]);
    assert_eq!(Some(ConfigError::PeerTooShort), try_load_raft_config(&peer(1), &s).err());
    assert_eq!(Some(ConfigError::PeerIdTooShort), try_load_raft_config(&vec![1, 2], &s).err());
    assert_eq!(
        Some(ConfigError::Peers(PeersSettingError::Missing)),
        try_load_raft_config(&peer(1), &settings(&[])).err()
    );
    let ok = settings(&[("sawtooth.consensus.raft.peers", "[\"0000000000000007\"]")]);
    assert_eq!(vec![7], try_load_raft_config(&peer(1), &ok).unwrap().raft.peers);
}

// The node

#[test]
fn leader_builds_publishes_proposes_and_commits() {
    let peers = vec![peer(1), peer(2)];
    let mut node = SawtoothRaftNode::new(peer(1), peers.clone(), 3000);

    assert_eq!(vec!["initialize"], describe(&node.on_ready_leader(true, 1000)));
    // Becoming leader again changes nothing
    assert!(node.on_ready_leader(true, 1500).is_empty());

    assert!(!node.check_publish(3999));
    assert!(node.check_publish(4000));
    node.on_block_finalized(vec![7]);
    assert!(!node.check_publish(9000));

    assert_eq!(vec!["check [7]"], describe(&node.on_block_new(block(7, 6))));
    assert_eq!(vec!["propose [7]"], describe(&node.on_block_valid(vec![7])));

    assert!(node.on_committed_entry(&normal_entry(5, vec![7]), 5000).is_empty());
    assert_eq!(vec!["commit [7]"], describe(&node.commit_next(&block(6, 5))));

    assert!(node.commits_as_leader(&vec![7]));
    let actions = node.on_block_commit(&vec![7], Some(&peers), 6000);
    assert_eq!(vec!["applied 5", "initialize"], describe(&actions));
    assert!(!node.commits_as_leader(&vec![7]));

    // Building again from the commit on
    assert!(!node.check_publish(8999));
    assert!(node.check_publish(9000));
}

#[test]
fn leader_proposes_membership_change() {
    let peers = vec![peer(1), peer(2)];
    let mut node = SawtoothRaftNode::new(peer(1), peers.clone(), 10);
    node.on_ready_leader(true, 0);
    node.on_block_finalized(vec![7]);
    node.on_block_valid(vec![7]);
    node.on_block_new(block(7, 6));
    node.on_committed_entry(&normal_entry(5, vec![7]), 0);
    node.commit_next(&block(6, 5));

    let new_peers = vec![peer(1), peer(2), peer(3)];
    assert_eq!(1, node.membership_difference(&new_peers).len());
    let actions = node.on_block_commit(&vec![7], Some(&new_peers), 0);
    assert_eq!(
        vec!["applied 5".to_string(), format!("propose change AddNode 3 {:?}", peer(3))],
        describe(&actions)
    );
    assert!(!node.check_publish(100));

    // The change comes back committed: it is applied and the leader builds again
    let entry = conf_change_entry(6, 2, raft::eraftpb::ConfChangeType::AddNode, 3, peer(3));
    let actions = node.apply_committed_entry(&entry, 50).unwrap();
    assert_eq!(vec![format!("apply change AddNode 3 {:?}", peer(3)), "initialize".to_string()], describe(&actions));
    assert_eq!(Some(peer(3)), node.peer_for(3));
    assert!(node.check_publish(60));
}

#[test]
fn membership_differences() {
    let node = SawtoothRaftNode::new(peer(1), vec![peer(1), peer(2)], 10);
    assert!(node.membership_difference(&vec![peer(1), peer(2)]).is_empty());
    assert_eq!(vec![peer(2)], node.membership_difference(&vec![peer(1)]));
    assert_eq!(2, node.membership_difference(&vec![peer(1), peer(3), peer(3)]).len());
}

#[test]
fn follower_commits_what_raft_committed() {
    let mut node = SawtoothRaftNode::new(peer(2), vec![peer(1), peer(2)], 3000);
    assert!(node.on_ready_follower(false).is_empty());
    assert!(node.on_committed_entry(&normal_entry(3, vec![8]), 0).is_empty());
    // Empty entries are skipped
    assert!(node.on_committed_entry(&normal_entry(4, vec![]), 0).is_empty());
    assert_eq!(vec!["check [8]"], describe(&node.on_block_new(block(8, 1))));
    assert!(node.commit_next(&block(1, 0)).is_empty());
    assert!(node.on_block_valid(vec![8]).is_empty());
    assert_eq!(vec!["commit [8]"], describe(&node.commit_next(&block(1, 0))));
    // Already committing: nothing more
    assert!(node.commit_next(&block(1, 0)).is_empty());
    // A commit of another block does nothing
    assert!(node.on_block_commit(&vec![9], None, 0).is_empty());
    assert_eq!(vec!["applied 3"], describe(&node.on_block_commit(&vec![8], None, 0)));
    assert!(node.commit_next(&block(8, 1)).is_empty());
}

#[test]
fn leader_stepping_down() {
    let mut node = SawtoothRaftNode::new(peer(1), vec![peer(1)], 3000);
    node.on_ready_leader(true, 0);
    assert_eq!(vec!["cancel"], describe(&node.on_ready_follower(false)));
    assert!(node.on_ready_follower(false).is_empty());
    assert!(!node.check_publish(10000));

    // Stepping down while committing keeps committing as follower
    node.on_ready_leader(true, 0);
    node.on_block_finalized(vec![4]);
    node.on_block_valid(vec![4]);
    node.on_block_new(block(4, 3));
    node.on_committed_entry(&normal_entry(9, vec![4]), 0);
    assert_eq!(vec!["commit [4]"], describe(&node.commit_next(&block(3, 2))));
    assert!(node.on_ready_follower(false).is_empty());
    assert!(!node.commits_as_leader(&vec![4]));
    assert_eq!(vec!["applied 9"], describe(&node.on_block_commit(&vec![4], None, 0)));
}

#[test]
fn committed_entry_errors() {
    let mut node = SawtoothRaftNode::new(peer(1), vec![peer(1)], 3000);
    let bad = Entry { entry_type: EntryType::EntryConfChange, term: 2, index: 4, data: vec![0xff, 0xff], context: vec![], sync_log: false };
    assert_eq!(Some(EntryError::InvalidConfChange), node.apply_committed_entry(&bad, 0).err());
    let remove_unknown = conf_change_entry(5, 2, raft::eraftpb::ConfChangeType::RemoveNode, 42, vec![]);
    assert_eq!(Some(EntryError::UnknownNode(42)), node.apply_committed_entry(&remove_unknown, 0).err());
    // Membership changes of the first term are not acted on
    let first_term = conf_change_entry(6, 1, raft::eraftpb::ConfChangeType::RemoveNode, 42, vec![]);
    assert!(node.apply_committed_entry(&first_term, 0).unwrap().is_empty());
    // Removing a known node
    let remove = conf_change_entry(7, 2, raft::eraftpb::ConfChangeType::RemoveNode, 1, vec![]);
    let actions = node.apply_committed_entry(&remove, 0).unwrap();
    assert_eq!(vec!["apply change RemoveNode 1 []"], describe(&actions));
    assert_eq!(None, node.peer_for(1));
    assert_eq!(ConfChangeType::RemoveNode, ConfChangeType::RemoveNode);
}

#[test]
fn conf_changes_update_the_peer_map() {
    let mut node = SawtoothRaftNode::new(peer(1), vec![peer(1)], 3000);
    let add = ConfChange { id: 0, change_type: ConfChangeType::AddNode, node_id: 5, context: peer(5) };
    node.apply_conf_change(&add);
    assert_eq!(Some(peer(5)), node.peer_for(5));
    let learner = ConfChange { id: 0, change_type: ConfChangeType::AddLearnerNode, node_id: 6, context: peer(6) };
    node.apply_conf_change(&learner);
    assert_eq!(None, node.peer_for(6));
    let remove = ConfChange { id: 0, change_type: ConfChangeType::RemoveNode, node_id: 1, context: vec![] };
    node.apply_conf_change(&remove);
    assert_eq!(None, node.peer_for(1));
    assert_eq!(Some(peer(5)), node.peer_for(5));
}

#[test]
fn peer_lists_decode_from_hex() {
    assert_eq!(Some(vec![vec![10, 11], vec![]]), decode_peer_list(&vec!["0a0B".to_string(), String::new()]));
    assert_eq!(None, decode_peer_list(&vec!["0a".to_string(), "abc".to_string()]));
    assert_eq!(None, decode_peer_list(&vec!["zz".to_string()]));
    assert_eq!(Some(vec![]), decode_peer_list(&vec![]));
}

#[test]
fn messages_are_routed_by_raft_id() {
    let node = SawtoothRaftNode::new(peer(1), vec![peer(1), vec![9, 9, 0, 0, 0, 0, 0, 0, 0, 2]], 3000);
    assert_eq!(Some(peer(1)), node.peer_for(1));
    assert_eq!(Some(vec![9, 9, 0, 0, 0, 0, 0, 0, 0, 2]), node.peer_for(2));
    assert_eq!(None, node.peer_for(3));
}

// Paths, command line and engine

#[test]
fn data_dir_under_home() {
    assert_eq!("/home/raft/data", PathConfig::from_home(Some("/home/raft")).data_dir);
    assert_eq!("/home/raft/data", PathConfig::from_home(Some("/home/raft/")).data_dir);
    assert_eq!("/var/lib/sawtooth-raft", PathConfig::from_home(None).data_dir);
    assert_eq!("a/data", PathConfig::from_home(Some("a")).data_dir);
    assert_eq!("data", PathConfig::from_home(Some("")).data_dir);
}

#[test]
fn command_line_arguments() {
    assert_eq!(LogLevel::Warn, log_level_for(0));
    assert_eq!(LogLevel::Info, log_level_for(1));
    assert_eq!(LogLevel::Trace, log_level_for(2));
    assert_eq!(LogLevel::Trace, log_level_for(7));
    let args = RaftCliArgs::from_matches(1, Some("log.yaml".to_string()), None);
    assert_eq!("tcp://localhost:5050", args.endpoint);
    assert_eq!(Some("log.yaml".to_string()), args.log_config);
    assert_eq!(LogLevel::Info, args.log_level);
    let args = RaftCliArgs::from_matches(0, None, Some("tcp://validator:5050".to_string()));
    assert_eq!("tcp://validator:5050", args.endpoint);
    assert_eq!(None, args.log_config);
}

#[test]
fn engine_ticks_every_100_ms() {
    let _engine = RaftEngine::new();
    assert_eq!(100, RAFT_TIMEOUT_MS);
}

#[test]
fn ticker_ticks_once_a_period() {
    let mut ticker = Ticker::new(1000, 100);
    assert_eq!((false, 100), ticker.tick(1000));
    assert_eq!((false, 40), ticker.tick(1060));
    assert_eq!((true, 100), ticker.tick(1100));
    assert_eq!((false, 70), ticker.tick(1130));
    // A clock that went backwards waits a whole period.
    assert_eq!((false, 100), ticker.tick(500));
    assert_eq!((true, 100), ticker.tick(1350));
}

#[test]
fn peer_messages_decode_as_raft_messages() {
    let mut m = raft::eraftpb::Message::new();
    m.set_to(3);
    m.set_term(7);
    let bytes = m.write_to_bytes().unwrap();
    let decoded = SawtoothRaftNode::on_peer_message(&bytes).unwrap();
    assert_eq!(3, decoded.get_to());
    assert_eq!(7, decoded.get_term());
    assert!(SawtoothRaftNode::on_peer_message(&vec![0xff, 0xff, 0xff]).is_none());
}
